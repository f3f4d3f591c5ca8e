# school_cats

The data models and the decision logic of a campus cat-care platform
(cats, breeds, places, feedings, posts and comments, users and their
session tokens), written in Verus and verified.

- `src/` is the library. Each module states its behaviour in contracts
  over mathematical models and proves it:
  - `user`, `cats`, `places`, `posts`, `response`: the records and the
    reply envelope, with their defaults, copies and conversions;
  - `jwt`: session tokens (HS256 JSON web tokens through `jsonwebtoken`);
  - `sql`: cutting the schema script into statements (UTF-8 or GBK);
  - `db`: what the backend makes of query rows and how it assembles lists;
  - `handlers`, `upload`: the replies of the backend's routes and where
    uploaded images go;
  - `session`, `forms`: the frontend's token handling, retry rule and forms;
  - `text`, `time`: characters, decimal numerals and timestamps.
  Calls into outside crates stand behind small trusted wrappers whose
  contracts say what the crate's source shows.
- `tests/` exercises the library on concrete values.
- `app/` is the program around it: the warp/MySQL backend and the yew
  frontend, with serde copies of the records.
