//! A graph-based work-unit execution engine: nodes with a prepare → compute
//! → decide-next contract, composed into flows whose edges are chosen by
//! each node's own output, plus batch and bounded-concurrency variants of
//! that contract, and a provider-bound HTTP generation client.

pub mod ext;
pub mod flow;
pub mod laws;
pub mod llm;
pub mod node;
pub mod value;

pub use flow::{new_batch_node, new_parallel_batch_node, BatchFlow, Flow};
pub use llm::LlmClient;
pub use node::{Behavior, Node, NodeLogic};
pub use value::{Dict, Value};
