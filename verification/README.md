# awgctl

`awgctl` manages AmneziaWG servers and their clients: it creates servers with
a free name, subnet and port, adds clients with free addresses, removes them,
lists them, and exports a client's configuration as text or as a QR code.

The library under `src/` holds the decisions, each proved with Verus against
its contract:

- `net`, `ip_text`, `text`: IP addresses and networks as numbers, their text
  (parsing and display as `std` and `ipnet` write them), and the string
  helpers the contracts are stated with.
- `util`: validation of names, DNS entries, subnets, ports and client
  addresses; the system's networks; the tables and detail listings.
- `server`, `new_server`: stored servers and their checks, the choice of
  name, subnet, port and endpoint, and the making of a new server as a
  sequence of steps whose I/O the caller performs.
- `client`: stored clients and their checks, the addresses of a new client,
  what adding and removing a client does to the server.
- `export`, `store`, `commands`, `errors`: the exported configuration and
  its QR code, which files are servers and clients, the subcommands'
  arguments, and the errors.

`app/` is the command line program around it: argument parsing, the files
under `/etc/awgctl` and `/etc/amnezia/amneziawg`, the system's interfaces,
port binding and the HTTP request for the public address.

The tests under `tests/` exercise the library with the real outside crates.
