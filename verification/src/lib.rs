pub mod ec_memory_storage;
pub mod erasure;
pub mod hybrid_laws;
pub mod hybrid_storage;
pub mod internal_storage;
pub mod leader_state;
pub mod memory_storage;
pub mod messages;
pub mod sequence_paxos_ec;
pub mod state_laws;
pub mod storage;
pub mod storage_laws;
pub mod util;
pub mod wire;
