//! Bake bit-copyable values into generated source: each value's raw bytes
//! become a byte-array literal inside a zero-argument accessor function, and a
//! registry maps symbolic names to the accessor text and to the file that
//! text is written to.
pub mod marshal;
pub mod registry;
