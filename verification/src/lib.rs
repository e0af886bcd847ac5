//! Verified protocol and media logic for the Insta360 Luna Ultra desktop linker.
use vstd::prelude::*;

pub mod protobuf;
pub mod ucd2;
pub mod text;
pub mod camera;
pub mod url;
pub mod media;
pub mod listing;
pub mod session;
pub mod probe;
pub mod watermark;
pub mod desktop;
pub mod ucd2_client;
pub mod transfer;
pub mod luna_client;
pub mod mic_ble;
pub mod profiles;
pub mod placement;
pub mod video_frames;
pub mod runtime_files;
pub mod pixels;
pub mod dir_index;

verus! {

} // verus!
