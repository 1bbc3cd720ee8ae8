# browser_superpeer

LBRY-shaped blobs served by a download superpeer over Iroh, with the blob
logic written in Verus and proved.

`src/` is the verified library:

- `hexcodec`, `digest`, `aescbc`, `text` — hex text, SHA-384 blob identities,
  AES-256-CBC with PKCS#7, and the string facts the rest needs; the calls into
  `hex`, `sha2`, `aes`/`cbc` and std stand behind small trusted wrappers whose
  contracts say what those functions return.
- `lbry_blob`, `sd_json` — stream descriptors, their exact JSON bytes, hash
  verification, descriptor validation and content-blob decryption.
- `pack` — splitting a file into content blobs, encrypting and naming them and
  writing the descriptor; each packed blob provably checks against its entry
  and decrypts to its run of the file.
- `fetch` — the client's per-blob decisions while assembling a stream; the
  blobs of a packed stream assemble back to the file.
- `protocol` — the request/response framing over one bidirectional stream, as
  step functions that say how many bytes to read next; requests and replies
  read back as sent.
- `ticket` — URL-safe base64 tickets; a ticket decodes to what it encodes.
- `media` — cache names and content types of assembled media.

`app/` is the program: command line, files, Iroh endpoints, the companion HTTP
server, and the serde forms of descriptors and endpoint addresses.
