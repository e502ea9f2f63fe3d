# refineid

The verified core of a client for FINEID smart cards: files and certificates on the
card, PACE and secure messaging, signatures, PIN safety, and revocation. `src/` is
verified with Verus; `app/` is the PC/SC adapter around it.

## Layout

| Place | What stands there |
|---|---|
| `transport`, `t0`, `reader`, `apdu`, `atr` | commands, replies, the T=0 conventions, and what is decided around PC/SC calls |
| `pkcs15`, `pkcs15::picker`, `backend`, `card_access` | files of the card, and the reader that holds it |
| `pace`, `secure_messaging`, `can`, `rng` | the PACE handshake and the protected channel |
| `sign`, `signing_session`, `auth` | signatures, decryption, batches |
| `pin`, `pin_cache`, `pin_retry_risk` | codes, how long they are kept, which attempts are allowed |
| `x509`, `der`, `ber`, `oid` | certificates and their encoding |
| `crl`, `ocsp`, `revocation`, `cert_state`, `trust_roots` | verdicts on certificates, and trusted roots |
| `text`, `identity`, `render`, `ascii`, `bytes` | validated text and byte strings |
| `crypto` | digests, AES, the brainpoolP384r1 group, key material |

## How to read it

A transport carries a ghost log of its exchanges. The contract of a function that talks
to the card says which commands it adds to the log and what it returns for the replies.
Functions named `law_...` state what holds across functions.

What comes from other crates (digests, AES, DER readers, names, random bytes, the clock)
stands behind small functions whose contracts are believed. Each names the outside
function it calls. Arithmetic on the curve and the verification of signatures are traits,
`CurveArithmetic` and `SignatureVerifier`, that a program supplies.
