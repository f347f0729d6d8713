# rocket_crud

A user and group registry served over HTTP. The library (`src/`, verified with
Verus) holds the rules; `app/` is the Rocket server around it.

- `crud::keys` — byte order on keys, the order the store walks them in.
- `crud::tree` — `Tree<V>`: the records of one store tree, keys ascending,
  with the log of writes that brings the store to the same state.
- `crud::session` — the session's private cookies and their attributes.
- `crud` — `CrudError` and the `Crud` operations (create, read, list, update,
  delete, open a session on a record), each stated over the tree's entries.
- `users::users`, `users::groups`, `users::auths` — the records, their public
  forms, and the request handlers for users (sign-up, sign-in, sign-out,
  profile changes, tokens, lookups) and groups (creation, members, lookups).
- `users::laws` — properties across requests: sign-up then sign-in, sessions
  and tokens, refused requests change nothing, unique emails.
- `ids`, `password` — fresh ids from `nanoid`, password hashes from `pwhash`,
  and the check that a stored hash is printable ASCII before it is verified.

The app loads a tree from sled for each request, hands it to a handler, then
applies the tree's recorded writes to sled (creations and conditional
removals as compare-and-swap) and to the response's cookies.
