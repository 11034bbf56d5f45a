# rusty_chat

A small chat service. The server keeps a users log (one logged-in name per
line) and one log per room (one line per message: timestamp, author and body,
separated by tabs), and answers logins, long polls, posted messages and
logouts over HTTP with JSON. The client is a GTK window that sends those
requests and shows the answers.

- `src/` is the library, verified with Verus: reading the two kinds of log
  (`text`, `decimal`, `server::users`, `server::room_log`), what each request
  is and is answered (`server::message`, `server::response`,
  `server::handlers`), properties that span requests (`server::laws`), and the
  client's state and its handling of answers (`client`).
- `app/` holds the programs around it: `rusty_chat server` runs the server on
  localhost:3000 with iron, and `rusty_chat client` opens the chat window
  (GTK, hyper), which loads its layout from `rusty_chat.glade` in the working
  directory. File access, HTTP and JSON decoding happen there.
- `tests/` runs the library on concrete requests and logs.
