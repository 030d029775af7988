//! The helper tools of the library.

pub mod ring_buffer;
pub mod sync_queue;
pub mod sync_ring_buffer;
pub mod sync_ring_vector;
pub mod order;
pub mod sync_priority_queue;
pub mod time_list;
pub mod sync_time_list;
pub mod pool_allocator;
pub mod async_observer;
pub mod sync_dictionary;
pub mod histogram;
pub mod sync_object;
pub mod worker_pool;
pub mod task_control;
pub mod lock_free_ring_buffer;
pub mod sync_observer;
