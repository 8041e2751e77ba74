# opa_wire

The wire format spoken with an Open Policy Agent server, verified with Verus.

An access request goes out as `{"input": {...}}`; the policy answers `{"result": {...}}`. The
library lays the request out, reads the answer, and turns it into a decision that fails closed:
a request is allowed only where the policy decided something, every decision allows, and each
requested resource is named by one of them.

- `src/access_model.rs`: requests and decisions, independent of any policy engine
- `src/request.rs`: the request on the wire and its document
- `src/response.rs`: the response, how it is read, and the decision it amounts to
- `src/json.rs`, `src/body.rs`: documents as they are received and as they are sent
- `src/entries.rs`, `src/text.rs`: keys among entries; strings and decimal numbers
- `src/laws.rs`: what holds of the whole
- `app/`: JSON text, through serde
