//! Storage: splitting files into content-addressed chunks and putting them back together.

pub mod file_chunker;
pub mod chunk_store;
pub mod metadata_store;
pub mod encrypted_chunk_store;
pub mod storage_manager;
pub mod enhanced_storage_manager;
