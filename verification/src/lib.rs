//! A verified core for a small proxy-controller client.
//!
//! The library holds the logic of the client: parsing the JSON body that the
//! controller's `/proxies` endpoint returns, building the request URL from a
//! host and a port, ordering the parsed records for display, and the state
//! machine that reacts to the user's events.  All I/O (the HTTP request, the
//! window) lives outside the library and exchanges plain values with it.

pub mod json;
pub mod model;
pub mod order;
pub mod shell;



