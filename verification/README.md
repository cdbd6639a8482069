# kirblasnoop

Binds tcp and udp ports, swallows whatever arrives, and logs it byte-exact. Optionally
answers back well enough to keep the peer talking. The binary is `kls`.

The logic is a library verified with Verus; sockets, files, the clock and the command
line are in a thin program around it.

## the library, `src/`

| module | what it decides |
|---|---|
| `classify` | what a message is called: TLS hello, HTTP request, DNS query, banner, text |
| `dns` | the reply to a query, with and without a frame |
| `profile` | matchers, escapes and hex, what a profile compiles to, which rule answers |
| `listener` | what a connection or a datagram draws, which sources are tracked |
| `stream` | what is kept of a stream: its first and its last bytes |
| `log` | the budget of a run, its events, its console lines, its open streams |
| `config`, `startup`, `catalogue`, `transparent` | what was asked for on the command line and what is printed |
| `origdst`, `endpoint`, `sockopt` | socket addresses and interface names |
| `hexdump`, `ts`, `encoding`, `order`, `text`, `bytes` | dumps, dates, base64, the order of texts, text and bytes |

What a function does is said in its `ensures`, over spec functions that stand beside it.
What holds of several functions together is a public proof function, in the modules
themselves or in the files named `laws.rs`.

## what is believed

Six small functions call code that is not verified here, and two of std's methods are
given a contract: `text::quote`, `text::lossy`, `text::utf8`, `encoding::encode`,
`origdst::native16`, `ts::since_epoch`, `String::push` and `char::is_whitespace`. Each
says in its doc comment what is claimed of it and what is left unsaid.

## the program, `app/`

`main.rs` reads the command line, `files.rs` config files and profiles, `net.rs` holds the
two socket options, `sink.rs` writes to the console and to disk, and `tcp.rs` and `udp.rs`
run the sockets.
