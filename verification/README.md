# ue-pak-sig

Create and check Unreal Engine 4.26/4.27 `.sig` files, with the format logic
verified by Verus.

- `src/` is the verified library:
  - `crypto.rs`: CRC32 and SHA-1 (through `crc32fast` and `sha1`), and the
    SHA-1 of a list of `u32` values;
  - `ini.rs`: parsing of the key configuration (`DefaultCrypto.ini` syntax),
    with base64 decoding through `base64`;
  - `rsa_keys.rs`: RSA keys built through `rsa`, each kept beside its
    components, and PKCS#1 v1.5 (unprefixed) signing and checking;
  - `key.rs`: the signing key built from the configuration;
  - `pak.rs`: finding and decoding the pak footer;
  - `sig.rs`: the `.sig` byte format, chunk checksums (also for streamed data),
    and signing and checking a pak;
  - `error.rs`: the error type.
- `app/` is the command-line tool: argument parsing, file and stream access,
  coloured output.
- `tests/` runs the library on concrete inputs.
