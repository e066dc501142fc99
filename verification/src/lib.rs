//! A small message-queue service core: an action router, four operation
//! handlers, an in-process registry of FIFO queues, and the indexed-parameter
//! grammar (`Prefix.<index>.<Field>`) that the handlers decode requests with.
pub mod ascii;
pub mod errors;
pub mod create_queue;
pub mod helpers;
pub mod list_queues;
pub mod queue;
pub mod receive_message;
pub mod router;
pub mod send_message;
pub mod service;
pub mod store;
