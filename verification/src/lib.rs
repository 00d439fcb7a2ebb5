//! A small program repository: executables declare typed input/output
//! interfaces in JSON sidecar files, and are invoked with each interface
//! wired to a freshly created named-pipe channel, addressed to the child
//! process through an environment variable.

pub mod channel;
pub mod codec;
pub mod codec_proofs;
pub mod decode;
pub mod descriptor;
pub mod fsrepo;
pub mod repo;
pub mod sys;
