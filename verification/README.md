# ProofPass

An investor proves accredited status from a signed attestation without showing the document. The
attestation, a PDF that DocuSign has signed, is checked inside a zkVM, its signature and certificate
chain as much as its date and wording; the Groth16 proof of that check opens a contract on Stellar
Soroban, which stores a credential for five years and has the account authorized whose key the proof
is about, and no other.

The library in `src/` holds the rules, each with a contract that Verus proves:

| module | what it does |
|---|---|
| `program` | what the zkVM program asks of an attestation, and what it commits to |
| `gate`, `ledger` | the contract: its state, who passes, and for how long |
| `bn254` | the curve operations of the ledger's host |
| `proof_encoding` | the form in which a proof is handed to the contract |
| `pdf_utils`, `pdf_bytes`, `pdf_document`, `content_stream`, `contents`, `dates`, `text` | reading a PDF |
| `pdf_signature`, `byte_range`, `cms_data` | the CMS signature of a PDF |
| `chain`, `certificates`, `rsa_keys`, `hashes` | certificates, their chains, and RSA signatures |
| `decimal`, `scan` | numbers in text, and searching |
| `gate_laws`, `attestation_laws` | what holds over any number of calls and across modules |

`app/` is ordinary Rust around it: the host program, the zkVM program's entry, and the contract with
its storage. Functions marked `external_body` call other crates; their contracts are believed, and
each says in its comment what it claims.
