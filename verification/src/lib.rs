//! Verified core of a LAN file-transfer tool: the wire protocol, task ids,
//! safe path joining, the discovered-device registry and the decisions of
//! discovery, network address filters, the planning of sends and receives,
//! and the phone-upload pairing and upload checks.
pub mod text;
pub mod codec;
pub mod protocol;
pub mod task_id;
pub mod paths;
pub mod registry;
pub mod lan;
pub mod subnet;
pub mod discovery;
pub mod session;
pub mod webupload;
pub mod clock;
pub mod ports;
pub mod device_id;
pub mod transfer;
pub mod upload;
pub mod notify;
