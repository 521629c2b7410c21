# html-navigator

A navigator for a directory of HTML files, written in Verus. It finds the files below a
directory, takes their titles, and writes a page that lists them, newest first. Comments
and tags of the files are kept in an SQLite database; every tag gets a page of its own.

- `src/` is the verified library. It computes: titles, hashes, the order of the files, the
  statements for the database, and the text of every page. The walk through the
  directories and the making of the tag pages are state machines that say what to do next.
- `app/` is the program around it. It reads directories and files, runs the statements,
  and writes the pages.
- `tests/` runs the library, with the statements on a real database.

The modules of the library:

| module     | what it holds                                                     |
|------------|-------------------------------------------------------------------|
| `text`     | trimming, splitting, joining, numerals                            |
| `escape`   | HTML text and its character references                            |
| `title`    | the title of a page                                               |
| `digest`   | the hash of a file's contents                                     |
| `clock`    | points in time and how they are written                           |
| `paths`    | the extension of a path, and the part of it below a directory     |
| `files`    | what is known of an HTML file, and the order of the files         |
| `scan`     | the walk through the directories                                  |
| `database` | the statements for the database, and what follows from its replies |
| `tables`   | what the statements mean for the two tables                       |
| `sitemap`  | the page that lists the files                                     |
| `heading`  | that the page names the most recent file once                     |
| `names`    | the names of the pages of tags                                    |
| `tags`     | lists of tags, the index of all tags and the page of each         |
| `report`   | what the commands print of tags and metadata                      |
