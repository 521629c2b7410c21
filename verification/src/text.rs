//! Text as a sequence of characters: trimming, splitting, joining and numerals.

use vstd::prelude::*;
use vstd::utf8::{decode_utf8, valid_utf8};

verus! {

/// `String::push` appends the character to the end of the string.
pub assume_specification[ String::push ](s: &mut String, ch: char)
    ensures
        final(s)@ == old(s)@.push(ch),
;

/// The bytes read as UTF-8, with a replacement character for what is no UTF-8, as
/// `String::from_utf8_lossy` reads them.
pub uninterp spec fn lossy_text(bytes: Seq<u8>) -> Seq<char>;

/// `String::from_utf8_lossy`: the text of the bytes, with a replacement character for what
/// is no UTF-8. Bytes that are UTF-8 throughout are read as the text that they encode.
#[verifier::external_body]
pub(crate) fn from_utf8_lossy(bytes: &[u8]) -> (text: String)
    ensures
        text@ == lossy_text(bytes@),
        valid_utf8(bytes@) ==> text@ == decode_utf8(bytes@),
{
    String::from_utf8_lossy(bytes).into_owned()
}

/// The characters with the Unicode property `White_Space`.
pub open spec fn is_white_space(c: char) -> bool {
    ||| 0x9 <= c as int <= 0xd
    ||| c as int == 0x20
    ||| c as int == 0x85
    ||| c as int == 0xa0
    ||| c as int == 0x1680
    ||| 0x2000 <= c as int <= 0x200a
    ||| c as int == 0x2028
    ||| c as int == 0x2029
    ||| c as int == 0x202f
    ||| c as int == 0x205f
    ||| c as int == 0x3000
}

/// The text without the white space at either end.
pub open spec fn trim(s: Seq<char>) -> Seq<char>
    decreases s.len(),
{
    if s.len() == 0 {
        s
    } else if is_white_space(s.first()) {
        trim(s.drop_first())
    } else if is_white_space(s.last()) {
        trim(s.drop_last())
    } else {
        s
    }
}

/// The pieces of `s` between the occurrences of `sep`; a text without `sep` is one piece.
pub open spec fn split(s: Seq<char>, sep: char) -> Seq<Seq<char>>
    decreases s.len(),
{
    if s.len() == 0 {
        seq![Seq::empty()]
    } else {
        let before = split(s.drop_last(), sep);
        if s.last() == sep {
            before.push(Seq::empty())
        } else {
            before.drop_last().push(before.last().push(s.last()))
        }
    }
}

/// The parts one after the other, with `sep` between neighbours.
pub open spec fn join(parts: Seq<Seq<char>>, sep: Seq<char>) -> Seq<char>
    decreases parts.len(),
{
    if parts.len() == 0 {
        Seq::empty()
    } else if parts.len() == 1 {
        parts[0]
    } else {
        join(parts.drop_last(), sep) + sep + parts.last()
    }
}

/// The parts one after the other.
pub open spec fn concat(parts: Seq<Seq<char>>) -> Seq<char>
    decreases parts.len(),
{
    if parts.len() == 0 {
        Seq::empty()
    } else {
        concat(parts.drop_last()) + parts.last()
    }
}

/// The texts that the strings hold.
pub open spec fn texts(strings: Seq<String>) -> Seq<Seq<char>> {
    strings.map_values(|s: String| s@)
}

/// The text that may be there.
pub open spec fn optional_text(s: Option<String>) -> Option<Seq<char>> {
    match s {
        Some(s) => Some(s@),
        None => None,
    }
}

/// The numeral of a number below ten.
pub open spec fn digit(n: int) -> char {
    (48 + n) as char
}

/// The decimal numeral of `n`, without leading zeros.
pub open spec fn decimal(n: nat) -> Seq<char>
    decreases n,
{
    if n < 10 {
        seq![digit(n as int)]
    } else {
        decimal(n / 10).push(digit((n % 10) as int))
    }
}

/// The decimal numeral of `n`, with a minus sign in front where `n` is negative.
pub open spec fn signed_decimal(n: int) -> Seq<char> {
    if n < 0 {
        seq!['-'] + decimal((-n) as nat)
    } else {
        decimal(n as nat)
    }
}

/// The hexadecimal numeral, in lower case, of a number below sixteen.
pub open spec fn hex_digit(n: int) -> char {
    if n < 10 {
        (48 + n) as char
    } else {
        (87 + n) as char
    }
}

/// The bytes as hexadecimal numerals, two for each byte, the high half first.
pub open spec fn hex(bytes: Seq<u8>) -> Seq<char> {
    Seq::new(
        2 * bytes.len(),
        |i: int|
            if i % 2 == 0 {
                hex_digit(bytes[i / 2] as int / 16)
            } else {
                hex_digit(bytes[i / 2] as int % 16)
            },
    )
}

/// Whether `c` has the Unicode property `White_Space`.
pub fn is_white_space_char(c: char) -> (yes: bool)
    ensures
        yes == is_white_space(c),
{
    let n: u32 = c as u32;
    (0x9 <= n && n <= 0xd) || n == 0x20 || n == 0x85 || n == 0xa0 || n == 0x1680 || (0x2000 <= n
        && n <= 0x200a) || n == 0x2028 || n == 0x2029 || n == 0x202f || n == 0x205f || n == 0x3000
}

/// The characters of `s`, in order.
pub fn chars_of(s: &str) -> (chars: Vec<char>)
    ensures
        chars@ == s@,
{
    let mut chars: Vec<char> = Vec::new();
    for c in it: s.chars()
        invariant
            it.seq() == s@,
            chars@ == s@.take(it.index()),
    {
        chars.push(c);
        assert(s@.take(it.index() + 1) =~= s@.take(it.index()).push(c));
    }
    chars
}

/// The string of the characters `from..to` of `chars`.
pub fn string_of(chars: &Vec<char>, from: usize, to: usize) -> (s: String)
    requires
        from <= to <= chars@.len(),
    ensures
        s@ == chars@.subrange(from as int, to as int),
{
    let mut s: String = String::new();
    let mut i: usize = from;
    while i < to
        invariant
            from <= i <= to <= chars@.len(),
            s@ == chars@.subrange(from as int, i as int),
        decreases to - i,
    {
        s.push(chars[i]);
        i += 1;
    }
    s
}

/// The text without the white space at either end.
pub fn trimmed(s: &str) -> (res: String)
    ensures
        res@ == trim(s@),
{
    let chars: Vec<char> = chars_of(s);
    let n: usize = chars.len();
    let mut from: usize = 0;
    assert(s@.subrange(0, n as int) =~= s@);
    while from < n && is_white_space_char(chars[from])
        invariant
            from <= n,
            n == chars@.len(),
            chars@ == s@,
            trim(s@.subrange(from as int, n as int)) == trim(s@),
        decreases n - from,
    {
        assert(s@.subrange(from as int, n as int).drop_first() =~= s@.subrange(from + 1, n as int));
        from += 1;
    }
    let mut to: usize = n;
    while from < to && is_white_space_char(chars[to - 1])
        invariant
            from <= to <= n,
            n == chars@.len(),
            chars@ == s@,
            from < to ==> !is_white_space(s@[from as int]),
            trim(s@.subrange(from as int, to as int)) == trim(s@),
        decreases to - from,
    {
        assert(s@.subrange(from as int, to as int).drop_last() =~= s@.subrange(
            from as int,
            to - 1,
        ));
        to -= 1;
    }
    string_of(&chars, from, to)
}

/// The pieces of `s` between the occurrences of `sep`.
pub fn pieces(s: &str, sep: char) -> (res: Vec<String>)
    ensures
        texts(res@) == split(s@, sep),
{
    let chars: Vec<char> = chars_of(s);
    let mut res: Vec<String> = Vec::new();
    let mut piece: String = String::new();
    let mut i: usize = 0;
    assert(s@.take(0) =~= Seq::<char>::empty());
    assert(split(s@.take(0), sep) =~= texts(res@).push(piece@));
    while i < chars.len()
        invariant
            i <= chars@.len(),
            chars@ == s@,
            split(s@.take(i as int), sep) == texts(res@).push(piece@),
        decreases chars@.len() - i,
    {
        let c: char = chars[i];
        assert(s@.take(i + 1).drop_last() =~= s@.take(i as int));
        let ghost before = texts(res@).push(piece@);
        if c == sep {
            res.push(piece);
            piece = String::new();
            assert(texts(res@) =~= before);
        } else {
            piece.push(c);
            assert(before.drop_last() =~= texts(res@));
        }
        i += 1;
    }
    let ghost done = res@;
    assert(s@.take(i as int) =~= s@);
    res.push(piece);
    assert(texts(res@) =~= texts(done).push(piece@));
    res
}

/// The parts one after the other, with `sep` between neighbours.
pub fn joined(parts: &[String], sep: &str) -> (res: String)
    ensures
        res@ == join(texts(parts@), sep@),
{
    let mut res: String = String::new();
    let mut i: usize = 0;
    let ghost all = texts(parts@);
    while i < parts.len()
        invariant
            i <= parts@.len(),
            all == texts(parts@),
            res@ == join(all.take(i as int), sep@),
        decreases parts@.len() - i,
    {
        assert(all.take(i + 1).drop_last() =~= all.take(i as int));
        if i > 0 {
            res.append(sep);
        }
        res.append(parts[i].as_str());
        assert(all.take(i + 1).last() == parts@[i as int]@);
        assert(i == 0 ==> res@ =~= parts@[0]@);
        i += 1;
    }
    assert(all.take(i as int) =~= all);
    res
}

/// A copy of the strings.
pub fn copied(strings: &[String]) -> (copies: Vec<String>)
    ensures
        copies@ == strings@,
{
    let mut copies: Vec<String> = Vec::new();
    let mut i: usize = 0;
    while i < strings.len()
        invariant
            i <= strings@.len(),
            copies@ == strings@.take(i as int),
        decreases strings@.len() - i,
    {
        copies.push(strings[i].clone());
        assert(copies@ =~= strings@.take(i + 1));
        i += 1;
    }
    copies
}

fn push_decimal(s: &mut String, n: u64)
    ensures
        final(s)@ == old(s)@ + decimal(n as nat),
    decreases n,
{
    if n >= 10 {
        push_decimal(s, n / 10);
    }
    let d: u8 = (n % 10) as u8;
    s.push((48u8 + d) as char);
}

/// The decimal numeral of `n`.
pub fn decimal_text(n: u64) -> (s: String)
    ensures
        s@ == decimal(n as nat),
{
    let mut s: String = String::new();
    push_decimal(&mut s, n);
    s
}

/// The decimal numeral of `n`, with a minus sign where `n` is negative.
pub fn signed_decimal_text(n: i64) -> (s: String)
    ensures
        s@ == signed_decimal(n as int),
{
    let mut s: String = String::new();
    if n < 0 {
        s.push('-');
        let size: u64 = (-(n as i128)) as u64;
        push_decimal(&mut s, size);
    } else {
        push_decimal(&mut s, n as u64);
    }
    s
}

fn hex_char(n: u8) -> (c: char)
    requires
        n < 16,
    ensures
        c == hex_digit(n as int),
{
    if n < 10 {
        (48u8 + n) as char
    } else {
        (87u8 + n) as char
    }
}

/// The bytes as hexadecimal numerals in lower case.
pub fn hex_text(bytes: &[u8]) -> (s: String)
    ensures
        s@ == hex(bytes@),
{
    let mut s: String = String::new();
    let mut i: usize = 0;
    while i < bytes.len()
        invariant
            i <= bytes@.len(),
            s@ == hex(bytes@.take(i as int)),
        decreases bytes@.len() - i,
    {
        let b: u8 = bytes[i];
        s.push(hex_char(b / 16));
        s.push(hex_char(b % 16));
        assert(s@ =~= hex(bytes@.take(i + 1)));
        i += 1;
    }
    assert(bytes@.take(i as int) =~= bytes@);
    s
}

/// A concatenation can be taken apart at any of its parts.
pub proof fn law_concat_around(parts: Seq<Seq<char>>, i: int)
    requires
        0 <= i < parts.len(),
    ensures
        concat(parts) == concat(parts.take(i)) + parts[i] + concat(parts.skip(i + 1)),
    decreases parts.len(),
{
    let head = parts.drop_last();
    if i == parts.len() - 1 {
        assert(parts.take(i) =~= head);
        assert(concat(parts.skip(i + 1)) =~= Seq::empty());
        assert(concat(parts) =~= concat(parts.take(i)) + parts[i] + concat(parts.skip(i + 1)));
    } else {
        law_concat_around(head, i);
        assert(head.take(i) =~= parts.take(i));
        assert(parts.skip(i + 1).drop_last() =~= head.skip(i + 1));
        assert(concat(parts) =~= concat(parts.take(i)) + parts[i] + concat(parts.skip(i + 1)));
    }
}

/// Trimming takes nothing but white space off the ends, and leaves none there.
pub proof fn law_trim(s: Seq<char>) -> (ends: (Seq<char>, Seq<char>))
    ensures
        s == ends.0 + trim(s) + ends.1,
        forall|i: int| 0 <= i < ends.0.len() ==> is_white_space(#[trigger] ends.0[i]),
        forall|i: int| 0 <= i < ends.1.len() ==> is_white_space(#[trigger] ends.1[i]),
        trim(s).len() > 0 ==> !is_white_space(trim(s).first()) && !is_white_space(trim(s).last()),
    decreases s.len(),
{
    let none = Seq::<char>::empty();
    if s.len() == 0 {
        (none, none)
    } else if is_white_space(s.first()) {
        let (front, back) = law_trim(s.drop_first());
        assert(s =~= seq![s.first()] + s.drop_first());
        assert(s =~= (seq![s.first()] + front) + trim(s) + back);
        (seq![s.first()] + front, back)
    } else if is_white_space(s.last()) {
        let (front, back) = law_trim(s.drop_last());
        assert(s =~= s.drop_last() + seq![s.last()]);
        assert(s =~= front + trim(s) + (back + seq![s.last()]));
        (front, back + seq![s.last()])
    } else {
        assert(s =~= none + trim(s) + none);
        (none, none)
    }
}

/// The pieces of a text hold no separator, and put together again they are the text.
pub proof fn law_split(s: Seq<char>, sep: char)
    ensures
        split(s, sep).len() > 0,
        forall|i: int| 0 <= i < split(s, sep).len() ==> !(#[trigger] split(s, sep)[i]).contains(sep),
        join(split(s, sep), seq![sep]) == s,
    decreases s.len(),
{
    let parts = split(s, sep);
    if s.len() > 0 {
        let head = s.drop_last();
        let before = split(head, sep);
        law_split(head, sep);
        assert(s =~= head.push(s.last()));
        if s.last() == sep {
            assert(parts.drop_last() =~= before);
            assert(join(parts, seq![sep]) =~= join(before, seq![sep]) + seq![sep]);
        } else {
            assert(parts.drop_last() =~= before.drop_last());
            let n = before.len() - 1;
            assert(parts[n] == before[n].push(s.last()));
            assert forall|i: int| 0 <= i < parts.len() implies !(#[trigger] parts[i]).contains(
                sep,
            ) by {
                assert(!before[i].contains(sep));
                if i == n && parts[n].contains(sep) {
                    let k = choose|k: int| 0 <= k < parts[n].len() && parts[n][k] == sep;
                    assert(before[n][k] == sep);
                }
            }
            assert(join(parts, seq![sep]) =~= join(before, seq![sep]).push(s.last()));
        }
    } else {
        assert(join(parts, seq![sep]) =~= s);
    }
}

/// White space is these characters and no others.
pub proof fn law_white_space(c: char)
    ensures
        is_white_space(c) <==> (c == '\t' || c == '\n' || c == '\u{b}' || c == '\u{c}' || c == '\r'
            || c == ' ' || c == '\u{85}' || c == '\u{a0}' || c == '\u{1680}' || c == '\u{2000}' || c
            == '\u{2001}' || c == '\u{2002}' || c == '\u{2003}' || c == '\u{2004}' || c
            == '\u{2005}' || c == '\u{2006}' || c == '\u{2007}' || c == '\u{2008}' || c
            == '\u{2009}' || c == '\u{200a}' || c == '\u{2028}' || c == '\u{2029}' || c
            == '\u{202f}' || c == '\u{205f}' || c == '\u{3000}'),
{
}

/// White space around a text that neither begins nor ends with any is taken off, and
/// nothing else is.
pub proof fn law_white_space_around_is_taken_off(
    front: Seq<char>,
    core: Seq<char>,
    back: Seq<char>,
)
    requires
        forall|i: int| 0 <= i < front.len() ==> is_white_space(#[trigger] front[i]),
        forall|i: int| 0 <= i < back.len() ==> is_white_space(#[trigger] back[i]),
        core.len() > 0 ==> !is_white_space(core.first()) && !is_white_space(core.last()),
    ensures
        trim(front + core + back) == core,
    decreases front.len() + back.len(),
{
    let s = front + core + back;
    if front.len() > 0 {
        law_white_space_around_is_taken_off(front.drop_first(), core, back);
        assert(s.first() == front[0]);
        assert(s.drop_first() =~= front.drop_first() + core + back);
    } else if back.len() > 0 {
        law_white_space_around_is_taken_off(front, core, back.drop_last());
        assert(s.last() == back[back.len() - 1]);
        assert(s.drop_last() =~= front + core + back.drop_last());
        if core.len() > 0 {
            assert(s.first() == core.first());
        } else {
            assert(s =~= back);
            assert(s.first() == back[0]);
            law_white_space_around_is_taken_off(back.drop_first(), core, front);
            assert(s.drop_first() =~= back.drop_first() + core + front);
        }
    } else {
        assert(s =~= core);
    }
}

/// Putting parts one after the other goes list by list, and a single part stays as it is.
pub proof fn law_concat(a: Seq<Seq<char>>, b: Seq<Seq<char>>, part: Seq<char>)
    ensures
        concat(a + b) == concat(a) + concat(b),
        concat(seq![part]) == part,
        concat(Seq::empty()) == Seq::<char>::empty(),
    decreases b.len(),
{
    reveal_with_fuel(concat, 2);
    assert(seq![part].drop_last() =~= Seq::empty());
    assert(concat(seq![part]) =~= part);
    if b.len() > 0 {
        law_concat(a, b.drop_last(), part);
        assert((a + b).drop_last() =~= a + b.drop_last());
        assert(concat(a + b) =~= concat(a) + concat(b));
    } else {
        assert(a + b =~= a);
        assert(concat(a) + concat(b) =~= concat(a));
    }
}

/// Joining goes list by list, with one separator between two lists that are not empty; a
/// single part stays as it is, and no parts are nothing.
pub proof fn law_join(a: Seq<Seq<char>>, b: Seq<Seq<char>>, part: Seq<char>, sep: Seq<char>)
    ensures
        a.len() > 0 && b.len() > 0 ==> join(a + b, sep) == join(a, sep) + sep + join(b, sep),
        join(seq![part], sep) == part,
        join(Seq::empty(), sep) == Seq::<char>::empty(),
    decreases b.len(),
{
    if a.len() > 0 && b.len() > 0 {
        let head = b.drop_last();
        assert((a + b).drop_last() =~= a + head);
        assert((a + b).last() == b.last());
        if head.len() > 0 {
            law_join(a, head, part, sep);
            assert(join(a + b, sep) =~= join(a, sep) + sep + join(b, sep));
        } else {
            assert(a + head =~= a);
            assert(join(b, sep) == b[0]);
        }
    }
}

/// Splitting undoes joining: parts without the separator come back as they were.
pub proof fn law_split_undoes_join(parts: Seq<Seq<char>>, sep: char)
    requires
        parts.len() > 0,
        forall|i: int| 0 <= i < parts.len() ==> !(#[trigger] parts[i]).contains(sep),
    ensures
        split(join(parts, seq![sep]), sep) == parts,
    decreases parts.len(),
{
    let none = Seq::<char>::empty();
    if parts.len() == 1 {
        lemma_split_end(none, parts[0], sep);
        assert(none + parts[0] =~= parts[0]);
        assert(split(none, sep) == seq![none]);
        assert(split(parts[0], sep) =~= parts);
    } else {
        let head = parts.drop_last();
        assert forall|i: int| 0 <= i < head.len() implies !(#[trigger] head[i]).contains(sep) by {
            assert(!parts[i].contains(sep));
        }
        law_split_undoes_join(head, sep);
        let before = join(head, seq![sep]);
        let with_sep = before + seq![sep];
        assert(with_sep.drop_last() =~= before);
        lemma_split_end(with_sep, parts.last(), sep);
        assert(!parts[parts.len() - 1].contains(sep));
        assert(split(with_sep, sep) == head.push(none));
        assert(none + parts.last() =~= parts.last());
        assert(split(with_sep + parts.last(), sep) =~= parts);
    }
}

proof fn lemma_split_end(s: Seq<char>, end: Seq<char>, sep: char)
    requires
        !end.contains(sep),
    ensures
        split(s, sep).len() > 0,
        split(s + end, sep) == split(s, sep).drop_last().push(split(s, sep).last() + end),
    decreases end.len(),
{
    law_split(s, sep);
    let pieces = split(s, sep);
    if end.len() == 0 {
        assert(s + end =~= s);
        assert(pieces.last() + end =~= pieces.last());
        assert(pieces =~= pieces.drop_last().push(pieces.last()));
    } else {
        let head = end.drop_last();
        assert forall|c: char| head.contains(c) implies end.contains(c) by {
            let i = choose|i: int| 0 <= i < head.len() && head[i] == c;
            assert(end[i] == c);
        }
        lemma_split_end(s, head, sep);
        assert((s + end).drop_last() =~= s + head);
        assert(end.contains(end.last()));
        let before = split(s + head, sep);
        assert(before.drop_last() =~= pieces.drop_last());
        assert(before.last().push(end.last()) =~= pieces.last() + end);
    }
}

/// The number that numerals give when they are read from left to right.
pub open spec fn number_read(numerals: Seq<char>) -> int
    decreases numerals.len(),
{
    if numerals.len() == 0 {
        0
    } else {
        10 * number_read(numerals.drop_last()) + (numerals.last() as int - 48)
    }
}

/// A decimal numeral is read back as its number. It holds nothing but the numerals `0` to
/// `9`, and does not begin with `0` but for the number zero.
pub proof fn law_decimal_is_read_back(n: nat)
    ensures
        number_read(decimal(n)) == n,
        forall|i: int|
            0 <= i < decimal(n).len() ==> 48 <= #[trigger] decimal(n)[i] as int && decimal(n)[i]
                as int <= 57,
        decimal(n).len() > 0,
        n > 0 ==> decimal(n)[0] != '0',
        n == 0 ==> decimal(n) == seq!['0'],
    decreases n,
{
    reveal_with_fuel(number_read, 2);
    if n >= 10 {
        law_decimal_is_read_back(n / 10);
        assert(decimal(n).drop_last() =~= decimal(n / 10));
        assert(decimal(n)[0] == decimal(n / 10)[0]);
    } else {
        assert(decimal(n).drop_last() =~= Seq::empty());
    }
}

/// A negative number is written as its opposite with a minus sign in front.
pub proof fn law_signed_decimal(n: int)
    ensures
        n >= 0 ==> number_read(signed_decimal(n)) == n && signed_decimal(n)[0] != '-',
        n < 0 ==> signed_decimal(n)[0] == '-' && number_read(signed_decimal(n).skip(1)) == -n,
        n < 0 ==> signed_decimal(n)[1] != '0',
{
    if n < 0 {
        law_decimal_is_read_back((-n) as nat);
        assert(signed_decimal(n).skip(1) =~= decimal((-n) as nat));
    } else {
        law_decimal_is_read_back(n as nat);
        assert(48 <= decimal(n as nat)[0] as int);
    }
}

/// Bytes are written byte by byte, each as two of the numerals `0` to `9` and `a` to `f`: that
/// of its sixteens, and that of what is left.
pub proof fn law_hex(a: Seq<u8>, b: Seq<u8>, byte: u8)
    ensures
        hex(a + b) == hex(a) + hex(b),
        hex(seq![byte]).len() == 2,
        hex(seq![byte])[0] == "0123456789abcdef"@[byte as int / 16],
        hex(seq![byte])[1] == "0123456789abcdef"@[byte as int % 16],
{
    reveal_strlit("0123456789abcdef");
    assert(hex(a + b) =~= hex(a) + hex(b));
}

/// The texts of strings are those of each string, in their order.
pub proof fn law_texts(strings: Seq<String>, i: int)
    ensures
        texts(strings).len() == strings.len(),
        0 <= i < strings.len() ==> texts(strings)[i] == strings[i]@,
{
}

/// The text that may be there is there where the string is.
pub proof fn law_optional_text(s: String)
    ensures
        optional_text(Some(s)) == Some(s@),
        optional_text(None) is None,
{
}

} // verus!
