//! Verified core logic of the zellij server: host terminal queries, selections,
//! in-pane search, pane layout discretisation, pty write queues, plugin thread
//! assignment and the bookkeeping around terminals and commands.

pub mod encoding;
pub mod host_query;
pub mod position;
pub mod selection;
pub mod row;
pub mod search;
pub mod pane_id;
pub mod pane_size;
pub mod pane_resizer;
pub mod pty_writer;
pub mod pinned_executor;
pub mod terminal_pane;
pub mod os_input_output;
pub mod os_input_output_unix;
