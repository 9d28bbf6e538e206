# office_crypto

Decryption of password-protected Office Open XML documents, written and proved in Verus. Both
encryption schemes are covered: agile encryption (an XML descriptor, SHA-1 or SHA-2, AES in CBC
mode by segments of 4096 bytes) and standard encryption (a binary header, SHA-1, AES in ECB mode).

A caller reads the `EncryptionInfo` and `EncryptedPackage` streams out of the compound file, and
hands them with a password to `package::decrypt_agile` or `package::decrypt_standard`.

| Module | Contents |
| --- | --- |
| `package` | opening a document: verification first, then decryption |
| `agile`, `standard` | the two schemes: descriptors, keys, verifiers, packages |
| `hash`, `cipher` | digests, the iterated password hash, AES, key normalisation |
| `xml`, `encoding`, `utf16`, `bytes` | XML events, base64, decimal numbers, UTF-8, UTF-16, integers |
| `error`, `ole` | errors, and the streams of a compound file |
| `laws`, `agile_laws`, `descriptor_laws`, `standard_laws` | what holds of several functions together |

Every fallible function states its result as `outcome(result) == f(..)`, where `f` is a
specification function over the views of its arguments, so success and each error are owed exactly
where `f` says so.

The block ciphers, the digests, base64 and the XML reader come from other crates. The functions
that call them are marked `external_body`; their doc comments say what is taken on trust. The laws
speak of encryption through any block encryption that AES decryption undoes, since the library
itself only decrypts.
