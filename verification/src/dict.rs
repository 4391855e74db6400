//! The dictionary-making machinery: the shared pipeline skeleton, the
//! concrete dictionary kinds, the record cache, and the index metadata.

pub mod index;
pub mod other;
pub mod pipeline;
pub mod release;
