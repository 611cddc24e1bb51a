# Forest Chat

A small real-time chat server (accounts, group rooms, direct messages, file
attachments) and the LAN meeting rooms of its desktop shell (signalling,
room admission, discovery on the local network, screen-share frames).

## Layout

- `src/` is the library. Verus proves its functions against their contracts,
  except a few small trusted wrappers, each marked `external_body`, that call
  std or an outside crate (the clock, SHA-256, hex and base64 encoding, the
  JPEG encoder, path joining, MIME guessing, case mapping); their contracts
  state what those calls are documented to do. Functions that read the clock
  state what holds of every reading:
  - `hub`, `names`, `keyed`: who is online and who is in which room;
  - `session`: what a client message does, as effects to carry out, given the
    user's approved group memberships: restricted groups are for approved
    members only, and only creators and admins approve, reject and promote;
  - `protocol`, `api`: the messages, and the rules for names and sign-in;
  - `db`, `files`, `attachments`: password records, tokens, direct-chat keys,
    the grouping of a user's rooms, and the rules for uploaded and saved files;
  - `meeting`: room admission and capacity (`rooms`), the signalling server's
    and client's decisions (`signaling`, `commands`), discovery replies
    (`discovery`) and the frames of a screen share (`screen_capture`);
  - `text`: character-level helpers the rules share.
- `tests/` runs the library on concrete values.
- `app/` is the program around it: the HTTP and WebSocket server, the Turso
  store, the upload and download handlers, the signalling sockets and the UDP
  discovery, with a command line for hosting, joining and finding meeting
  rooms. It performs what the library decides.
