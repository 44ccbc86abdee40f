//! Turns an inbound email into a task document for a remote collaboration
//! tool: a MIME decomposer (`email`), a line splitter for the task body
//! (`lines`), and a builder for the nested request document (`notion`).
pub mod email;
pub mod lines;
pub mod notion;
