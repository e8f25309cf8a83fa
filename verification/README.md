# flowspec

Parsing of BGP FlowSpec NLRI (RFC 8955 for IPv4, RFC 8956 for IPv6),
verified with Verus.

- `src/parser.rs`: a byte cursor and big-endian integers.
- `src/ops.rs`: numeric and bitmask operators and operator lists.
- `src/prefix.rs`: IP prefixes, checked and displayed through `inetnum`.
- `src/component.rs`: the components of a rule and how they are read.
- `src/nlri.rs`: a rule (NLRI): reading it, its components, writing it.
- `src/order.rs`: the RFC 8955 §5.1 order of rules.
- `src/text.rs`: text helpers for the textual rendering of rules.
- `src/laws.rs`: properties across functions: the order is reflexive,
  antisymmetric and (for well-formed rules of one family) transitive,
  and a written rule reads back unchanged.
- `app/`: `Display`, serde and arbitrary support around the library.

Every grammar function is specified against a spec function over the
input bytes (`component_at`, `nlri_at`, `op_list_end`, ...).
