# sakuin

A command-line client for the Sakuin manga database, speaking gRPC-web.

- `src/` is the verified library:
  - `grpc_web.rs`: framing of request bodies, reading of response frames and trailers,
    the status check, request URL and headers, and the laws that tie them together;
  - `status.rs`: reading-status codes, their names, and parsing of user input;
  - `cli.rs`: configuration merging and the checks made before a command is sent;
  - `text.rs`: whitespace, trimming, integer parsing and the standard-library calls on text.
- `app/` is the command itself: arguments, configuration files, HTTP and output.
- `tests/` runs the library on concrete inputs.
