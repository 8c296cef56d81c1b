# relay

A relay between servers that share AES-256-GCM keys with it, written in Verus.

- `src/` is the verified library:
  - `protocol`: the ECHO and SEND grammar, read by verified scanners whose
    contracts state the grammar directly and prove that a reading is unique;
  - `aes256_gcm_encryptor`, `aes_encryptor`: the two encryption envelopes, with
    the proof that decrypting what was encrypted gives the message back;
  - `config_reader`, `server_config`, `server_config_json`,
    `server_config_manager`, `table`: the key tables and server configurations,
    viewed as maps from domains;
  - `relay`: what the relay does with a datagram heard on the multicast group
    and with a line a server sent, and how it frames a message to forward;
  - `aead_cipher`, `base64_text`, `entropy`, `json_map`, `std_text`: the calls
    into `aes-gcm`, `base64`, `rand`, `serde_json` and std, with the contracts
    the library relies on.
- `app/` is the program: the multicast listener, the TCP sessions with the
  servers, reading the configuration file, and the serde forms of the
  configuration records.
- `tests/` exercises the library, among others against the grammar written as
  regular expressions.
