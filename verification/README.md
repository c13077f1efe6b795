# reqwest_rotate

Rotation of identities for a rate-limited HTTP client, written in Verus.

Give the client a pool of identities. Each request goes out under the active one. When a
detector reports the response as a rate-limit rejection, that identity cools, the next one takes
over, and the request is sent again. With no identities the client is a plain `reqwest::Client`.

## Layout

- `src/rotation.rs`: which identity is next and which ones are cooling.
- `src/client.rs`: the client, its builder, and the decisions that make up the course of a
  request. It sends nothing itself: `execute` and `resume` tell what is to be done next.
- `src/course.rs`: what holds of a request from its first step to its last.
- `src/identity.rs`: identities, and how they are stamped onto a request.
- `src/building.rs`: what a sequence of calls builds.
- `src/query.rs`: how the query parameters of an identity are merged into a URL.
- `src/detector.rs`: what a response says about the quota, and when the quota resets.
- `src/number.rs`: decimal numbers in header values, read exactly.
- `src/response.rs`: responses that are read to the end and put together again.
- `src/headers.rs`, `src/request.rs`, `src/transport.rs`, `src/time.rs`: the types of `http`,
  `reqwest` and `std` that the rest builds on, and what is relied on of them.
- `app/`: the asynchronous client, which sends, sleeps and logs as the library decides.
- `tests/`: tests of the library against the real crates.
