# freetalk

The core of a forum that runs on Freenet, written in Verus: every function in
`src/` carries a contract and is proved to meet it.

A board is a replicated state. Its message set and its admin list are merged
from deltas that peers exchange; the laws proved here say that the result does
not depend on the order in which deltas arrive, and that a delta applied twice
changes nothing more. Both hold wherever no message id stands for two
different messages (ids are hashes of signatures), and order-independence
also asks that no delta hold one message twice.

## Layout

- `src/cbor.rs`, `src/wire.rs`: the CBOR wire format, with a proof that decoding
  an encoding gives the item back; the reader also takes indefinite lengths,
  tags and byte strings for byte fields.
- `src/content.rs`: message content (text, replies, actions, categories) and
  its encoding; each kind round-trips.
- `src/message.rs`, `src/messages.rs`: signed messages and the message set:
  verification, summaries, deltas, and the actions state (edits, deletions,
  reactions) that action messages build.
- `src/actions.rs`, `src/action_laws.rs`: what each action does and who may
  perform it.
- `src/convergence.rs`: laws of the message set (order, idempotence, deltas in
  either order).
- `src/admin.rs`, `src/admin_laws.rs`: the owner's appointments of admins.
- `src/state.rs`: members, bans, member information and secrets as the rules
  read them; invite chains.
- `src/board.rs`: one user's copy of a board: secrets, rotation, permissions.
- `src/secret_delta.rs`: the secrets deltas of a rotation and of sealing the
  current secret for members who lack it.
- `src/threads.rs`, `src/reading.rs`, `src/roster.rs`: messages, reply trees
  and the member list as they are shown.
- `src/keys.rs`, `src/invitation.rs`: base58 owner keys and invitation codes.
- `src/joining.rs`, `src/banning.rs`: joining and rejoining a board, and who may
  ban whom (only members one invited, directly or not).
- `src/member_list.rs`: the member list as a user sees it.
- `src/category_form.rs`: the checks on the form that creates a category.
- `src/listing.rs`, `src/streaming.rs`: a message as a listing shows it, and
  following a board's messages without showing one twice.
- `src/crypto.rs`, `src/hash.rs`, `src/text.rs`: the calls into Ed25519,
  the rolling hash, number formatting, trimming and grapheme clusters.
- `app/main.rs`: a command line front end that checks board owner keys.
