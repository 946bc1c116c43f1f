# sdp-types

Types for SDP session descriptions (RFC 8866): the session description and
its fields, the enumerations of those fields, and the typed attributes
(`rtpmap`, `fmtp`, `rtcp`, `rtcp-fb`, `extmap`, `fingerprint`, `group`,
`setup`, `ssrc`, `ssrc-group`, `crypto`, `candidate`) with their parsers and
textual forms.

The library in `src/` is written in Verus. Each parser is specified by a
function over character sequences (`spec_parse`), each writer by its textual
form (`spec_display`), and the laws that tie them together are proved:
reading back the text written for a well-formed value gives the value back,
names are read in any ASCII case where the protocol says so, and the
attribute lookups of a session or media description agree with one another.

Layout:

- `src/text.rs`: the character-sequence model (splitting, joining, case
  folding, decimal and hexadecimal numbers) and its executable helpers.
- `src/enums.rs`: network, address, bandwidth and key types, media types and
  transport protocols.
- `src/net.rs`: IPv4 and IPv6 addresses, their grammar and canonical forms.
- `src/attributes/`: one module per attribute, the shared error type, and the
  `TypedAttribute` trait.
- `src/session.rs`: the session and media descriptions and their attribute
  lookups.
- `app/`: `Display` and `std::error::Error` for the error types, serde for the
  session description, and conversions to and from `std::net` addresses.
- `tests/`: scenarios on concrete values.

`Display` is not available on the library's own types; each has a
`to_string` method that returns its textual form.
