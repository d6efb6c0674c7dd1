//! The core of a single-threaded echo service that sits on a completion-based
//! kernel I/O ring: the correlation-tag codec, the fixed pool of receive
//! buffers, the connection-to-buffer directory, the ordered submission
//! backlog, and the reactor that turns completions into the next operations.
//!
//! Nothing here performs I/O. The program around the library owns the real
//! ring and the sockets; it hands completions in as plain values and carries
//! out the submissions the reactor queues.
//!
//! * [`op`]: operation descriptors and their 64-bit tags.
//! * [`buffers`]: the pool of receive buffers and the bytes they hold.
//! * [`directory`]: which buffer belongs to which connection.
//! * [`queue`]: submissions, the bounded ring queue and the backlog.
//! * [`model`]: the reactor as a state machine over mathematical values,
//!   with the laws that hold of it.
//! * [`reactor`]: the executable reactor, proved to follow the model.
//! * [`protocol`]: reactor and kernel together, and what holds of every run
//!   in which the kernel keeps its side.
//! * [`stream`]: the decisions of the servers that read and write stream
//!   sockets directly.

pub mod buffers;
pub mod directory;
pub mod model;
pub mod op;
pub mod protocol;
pub mod queue;
pub mod reactor;
pub mod stream;
