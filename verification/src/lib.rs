//! Core logic of a small x86_64 kernel: a bitmap page-frame allocator, a bump heap
//! allocator, an event ring buffer with an event log, the S3-FIFO page replacement
//! policy (with a plain FIFO cache for comparison), cooperative task scheduling,
//! physical memory summaries and the address arithmetic of the user page area.
pub mod frame_allocator;
pub mod memory;
pub mod ring_buffer;
pub mod events;
pub mod queues;
pub mod s3fifo_model;
pub mod s3fifo;
pub mod fifo_cache;
pub mod workload;
pub mod allocator;
pub mod task;
pub mod paging;
pub mod fault;
