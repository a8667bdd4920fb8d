# archypix_app_back

The logic of the Archypix picture back end, written in Verus and proved
against its contracts.

- `src/grouping/`: arrangements, their strategies (filters and groupings),
  the topological sorting of arrangements along their dependencies, the
  grouping of pictures by filters and by tags, and the editing of
  filter groupings.
- `src/database/`: the stored records (users, pictures, tags, ratings,
  arrangements, confirmations) and what is computed from them: mixed
  picture details, common and mixed tags, rating averages, default tags,
  confirmation checks.
- `src/api/`: the decisions of the endpoints: sign in and sign up checks,
  picture queries, tag edits, arrangement edits and deletions, uploads.
- `src/utils/`: error answers, request headers, hexadecimal tokens,
  thumbnails and blurhashes, small text utilities.
- `app/`: a command line front end that reads files and arguments, calls
  the library and prints JSON answers.
- `tests/`: tests of the library on concrete values.

Database access, HTTP routing, e-mail sending and EXIF reading stay outside
the library: the library takes what they read as plain values and returns
what they must write.
