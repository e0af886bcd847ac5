//! Diagnostic probes of the UCD2 link: the captured session opening frames, the stop-capture
//! candidates, the readable view of raw frames, and packets typed in as hex.
use vstd::prelude::*;
use vstd::utf8::*;
use crate::media::hex_value;
use crate::text::{
    ascii_lower, chars_of, decimal_chars, decimal_spec, hex_char, hex_digit_char, is_ascii_whitespace_spec,
    is_whitespace_spec, push_chars, push_str, slice_chars, strip_end, strip_start,
    string_from_chars, trim_chars, trim_spec,
};
use crate::session::{bytes_to_hex, hex_pair, hex_spec};
use crate::ucd2::{find_magic, find_magic_from, lemma_find_magic_bounds, le32_at, read_le32, copy_range, build_internal_packet, build_internal_packet_with_request_id, build_ucd2_frame, internal_packet_spec, ucd2_frame_spec};

verus! {

/// The stop-capture candidates reconstructed from the official app.
#[derive(Debug, Clone, Copy, PartialEq, Eq, Structural)]
pub enum StopCaptureVariant {
    Base,
    A03f,
    FullBase,
    FullA03f,
    FullBase9d58,
    FullA03f9d58,
    SeqBase,
    SeqA03f,
    Seq4121,
    SeqWrappedA03f,
    Command199Empty,
    Command199Selector,
}

/// The variant a name selects.
pub open spec fn stop_capture_variant_spec(name: Seq<char>) -> Option<StopCaptureVariant> {
    if name == "base"@ {
        Some(StopCaptureVariant::Base)
    } else if name == "a03f"@ {
        Some(StopCaptureVariant::A03f)
    } else if name == "full_base"@ {
        Some(StopCaptureVariant::FullBase)
    } else if name == "full_a03f"@ {
        Some(StopCaptureVariant::FullA03f)
    } else if name == "full_base_9d58"@ {
        Some(StopCaptureVariant::FullBase9d58)
    } else if name == "full_a03f_9d58"@ {
        Some(StopCaptureVariant::FullA03f9d58)
    } else if name == "seq_base"@ {
        Some(StopCaptureVariant::SeqBase)
    } else if name == "seq_a03f"@ {
        Some(StopCaptureVariant::SeqA03f)
    } else if name == "seq_4121"@ {
        Some(StopCaptureVariant::Seq4121)
    } else if name == "seq_wrapped_a03f"@ {
        Some(StopCaptureVariant::SeqWrappedA03f)
    } else if name == "command199_empty"@ {
        Some(StopCaptureVariant::Command199Empty)
    } else if name == "command199_selector"@ {
        Some(StopCaptureVariant::Command199Selector)
    } else {
        None
    }
}

impl StopCaptureVariant {
    /// The variant a name selects, `None` for an unknown name.
    pub fn from_name(name: &str) -> (r: Option<StopCaptureVariant>)
        ensures
            r == stop_capture_variant_spec(name@),
    {
        if crate::text::str_eq(name, "base") {
            Some(StopCaptureVariant::Base)
        } else if crate::text::str_eq(name, "a03f") {
            Some(StopCaptureVariant::A03f)
        } else if crate::text::str_eq(name, "full_base") {
            Some(StopCaptureVariant::FullBase)
        } else if crate::text::str_eq(name, "full_a03f") {
            Some(StopCaptureVariant::FullA03f)
        } else if crate::text::str_eq(name, "full_base_9d58") {
            Some(StopCaptureVariant::FullBase9d58)
        } else if crate::text::str_eq(name, "full_a03f_9d58") {
            Some(StopCaptureVariant::FullA03f9d58)
        } else if crate::text::str_eq(name, "seq_base") {
            Some(StopCaptureVariant::SeqBase)
        } else if crate::text::str_eq(name, "seq_a03f") {
            Some(StopCaptureVariant::SeqA03f)
        } else if crate::text::str_eq(name, "seq_4121") {
            Some(StopCaptureVariant::Seq4121)
        } else if crate::text::str_eq(name, "seq_wrapped_a03f") {
            Some(StopCaptureVariant::SeqWrappedA03f)
        } else if crate::text::str_eq(name, "command199_empty") {
            Some(StopCaptureVariant::Command199Empty)
        } else if crate::text::str_eq(name, "command199_selector") {
            Some(StopCaptureVariant::Command199Selector)
        } else {
            None
        }
    }

    /// The command id the candidate is sent with: 8, or 199 for the selector-199 candidates.
    pub open spec fn command_id_spec(self) -> u16 {
        match self {
            StopCaptureVariant::Command199Empty | StopCaptureVariant::Command199Selector => 0x00c7,
            _ => 0x0008,
        }
    }

    /// The command id the candidate is sent with.
    pub fn command_id(self) -> (r: u16)
        ensures
            r == self.command_id_spec(),
    {
        match self {
            StopCaptureVariant::Command199Empty | StopCaptureVariant::Command199Selector => 0x00c7,
            _ => 0x0008,
        }
    }

    /// The body of the candidate.
    pub open spec fn body_spec(self) -> Seq<u8> {
        match self {
            StopCaptureVariant::Base => seq![
                0xb2u8, 0x00, 0x03, 0x59, 0xc7, 0x00, 0x00, 0x00, 0x05, 0x57, 0xb0,
            ],
            StopCaptureVariant::A03f => seq![
                0xb2u8, 0x00, 0x03, 0x59, 0xc7, 0x00, 0x00, 0x00, 0x09, 0x57, 0x59, 0xb3, 0x00,
                0x03, 0xb0,
            ],
            StopCaptureVariant::FullBase => seq![
                0x10u8, 0x00, 0x00, 0x01, 0x00, 0x02, 0x00, 0x03, 0x00, 0x04, 0x00, 0x00, 0x00,
                0x15, 0x00, 0x02, 0x00, 0x00, 0x00, 0x00, 0x00, 0x0b, 0xb2, 0x00, 0x03, 0x59, 0xc7,
                0x00, 0x00, 0x00, 0x05, 0x57, 0xb0, 0x00, 0x00, 0x00, 0x05, 0x00, 0x00, 0x00, 0x00,
                0x00, 0x06, 0x00, 0x00, 0x00, 0x00,
            ],
            StopCaptureVariant::FullA03f => seq![
                0x10u8, 0x00, 0x00, 0x01, 0x00, 0x02, 0x00, 0x03, 0x00, 0x04, 0x00, 0x00, 0x00,
                0x19, 0x00, 0x02, 0x00, 0x00, 0x00, 0x00, 0x00, 0x0f, 0xb2, 0x00, 0x03, 0x59, 0xc7,
                0x00, 0x00, 0x00, 0x09, 0x57, 0x59, 0xb3, 0x00, 0x03, 0xb0, 0x00, 0x00, 0x00, 0x05,
                0x00, 0x00, 0x00, 0x00, 0x00, 0x06, 0x00, 0x00, 0x00, 0x00,
            ],
            StopCaptureVariant::FullBase9d58 => seq![
                0x10u8, 0x00, 0x00, 0x01, 0x00, 0x02, 0x00, 0x03, 0x00, 0x04, 0x00, 0x00, 0x00,
                0x1f, 0x00, 0x02, 0x00, 0x00, 0x00, 0x00, 0x00, 0x0b, 0xb2, 0x00, 0x03, 0x59, 0xc7,
                0x00, 0x00, 0x00, 0x05, 0x57, 0xb0, 0x00, 0x01, 0x00, 0x05, 0x00, 0x00, 0x00, 0x04,
                0x00, 0x01, 0xfb, 0x0a, 0x00, 0x06, 0x00, 0x00, 0x00, 0x00, 0x00, 0x07, 0x00, 0x00,
                0x00, 0x00,
            ],
            StopCaptureVariant::FullA03f9d58 => seq![
                0x10u8, 0x00, 0x00, 0x01, 0x00, 0x02, 0x00, 0x03, 0x00, 0x04, 0x00, 0x00, 0x00,
                0x23, 0x00, 0x02, 0x00, 0x00, 0x00, 0x00, 0x00, 0x0f, 0xb2, 0x00, 0x03, 0x59, 0xc7,
                0x00, 0x00, 0x00, 0x09, 0x57, 0x59, 0xb3, 0x00, 0x03, 0xb0, 0x00, 0x01, 0x00, 0x05,
                0x00, 0x00, 0x00, 0x04, 0x00, 0x01, 0xfb, 0x0e, 0x00, 0x06, 0x00, 0x00, 0x00, 0x00,
                0x00, 0x07, 0x00, 0x00, 0x00, 0x00,
            ],
            StopCaptureVariant::SeqBase => seq![
                0x00u8, 0x02, 0x10, 0x8a, 0x00, 0x01, 0x00, 0x02, 0x00, 0x01, 0x00, 0x03, 0x00,
                0x00, 0x00, 0x00, 0x10, 0x00, 0x00, 0x04, 0x00, 0x05, 0x00, 0x03, 0x00, 0x07, 0x00,
                0x00, 0x00, 0x15, 0x00, 0x02, 0x00, 0x00, 0x00, 0x00, 0x00, 0x0b, 0xb2, 0x00, 0x06,
                0x59, 0xc7, 0x00, 0x00, 0x00, 0x05, 0x57, 0xb0, 0x00, 0x00, 0x00, 0x08, 0x00, 0x00,
                0x00, 0x00, 0x00, 0x03, 0x00, 0x00, 0x00, 0x00,
            ],
            StopCaptureVariant::SeqA03f => seq![
                0x00u8, 0x02, 0x10, 0x8a, 0x00, 0x01, 0x00, 0x02, 0x00, 0x01, 0x00, 0x03, 0x00,
                0x00, 0x00, 0x00, 0x10, 0x00, 0x00, 0x04, 0x00, 0x05, 0x00, 0x03, 0x00, 0x07, 0x00,
                0x00, 0x00, 0x19, 0x00, 0x02, 0x00, 0x00, 0x00, 0x00, 0x00, 0x0f, 0xb2, 0x00, 0x06,
                0x59, 0xc7, 0x00, 0x00, 0x00, 0x09, 0x57, 0x59, 0xb3, 0x00, 0x06, 0xb0, 0x00, 0x00,
                0x00, 0x08, 0x00, 0x00, 0x00, 0x00, 0x00, 0x03, 0x00, 0x00, 0x00, 0x00,
            ],
            StopCaptureVariant::Seq4121 => seq![
                0x00u8, 0x02, 0x10, 0x19, 0x00, 0x01, 0x00, 0x02, 0x00, 0x01, 0x00, 0x03, 0x00,
                0x00, 0x00, 0x00, 0x10, 0x00, 0x00, 0x04, 0x00, 0x05, 0x00, 0x03, 0x00, 0x07, 0x00,
                0x00, 0x00, 0x23, 0x00, 0x02, 0x00, 0x00, 0x00, 0x00, 0x00, 0x0f, 0xb2, 0x00, 0x06,
                0x59, 0xc7, 0x00, 0x00, 0x00, 0x09, 0x57, 0x59, 0xb3, 0x00, 0x06, 0xb0, 0x00, 0x01,
                0x00, 0x08, 0x00, 0x00, 0x00, 0x04, 0x00, 0x01, 0xfb, 0x0e, 0x00, 0x09, 0x00, 0x00,
                0x00, 0x00, 0x00, 0x0a, 0x00, 0x00, 0x00, 0x00,
            ],
            StopCaptureVariant::SeqWrappedA03f => seq![
                0x00u8, 0x03, 0x10, 0x89, 0x00, 0x01, 0x00, 0x02, 0x00, 0x01, 0x00, 0x03, 0x00,
                0x00, 0x00, 0x00, 0x10, 0x8a, 0x00, 0x04, 0x00, 0x05, 0x00, 0x01, 0x00, 0x03, 0x00,
                0x00, 0x00, 0x00, 0x10, 0x00, 0x00, 0x06, 0x00, 0x07, 0x00, 0x03, 0x00, 0x09, 0x00,
                0x00, 0x00, 0x19, 0x00, 0x02, 0x00, 0x00, 0x00, 0x00, 0x00, 0x0f, 0xb2, 0x00, 0x08,
                0x59, 0xc7, 0x00, 0x00, 0x00, 0x09, 0x57, 0x59, 0xb3, 0x00, 0x08, 0xb0, 0x00, 0x00,
                0x00, 0x0a, 0x00, 0x00, 0x00, 0x00, 0x00, 0x03, 0x00, 0x00, 0x00, 0x00,
            ],
            StopCaptureVariant::Command199Empty => Seq::empty(),
            StopCaptureVariant::Command199Selector => seq![
                0xb2u8, 0x00, 0x03, 0x59, 0xc7, 0x00, 0x00, 0x00, 0x09, 0x57, 0x59, 0xb3, 0x00,
                0x03, 0xb0,
            ],
        }
    }

    /// The body of the candidate.
    pub fn body(self) -> (r: Vec<u8>)
        ensures
            r@ == self.body_spec(),
    {
        match self {
            StopCaptureVariant::Base => {
                let v: Vec<u8> = vec![
                    0xb2, 0x00, 0x03, 0x59, 0xc7, 0x00, 0x00, 0x00, 0x05, 0x57, 0xb0,
                ];
                assert(v@ =~= self.body_spec());
                v
            },
            StopCaptureVariant::A03f => {
                let v: Vec<u8> = vec![
                    0xb2, 0x00, 0x03, 0x59, 0xc7, 0x00, 0x00, 0x00, 0x09, 0x57, 0x59, 0xb3, 0x00,
                    0x03, 0xb0,
                ];
                assert(v@ =~= self.body_spec());
                v
            },
            StopCaptureVariant::FullBase => {
                let v: Vec<u8> = vec![
                    0x10, 0x00, 0x00, 0x01, 0x00, 0x02, 0x00, 0x03, 0x00, 0x04, 0x00, 0x00, 0x00,
                    0x15, 0x00, 0x02, 0x00, 0x00, 0x00, 0x00, 0x00, 0x0b, 0xb2, 0x00, 0x03, 0x59,
                    0xc7, 0x00, 0x00, 0x00, 0x05, 0x57, 0xb0, 0x00, 0x00, 0x00, 0x05, 0x00, 0x00,
                    0x00, 0x00, 0x00, 0x06, 0x00, 0x00, 0x00, 0x00,
                ];
                assert(v@ =~= self.body_spec());
                v
            },
            StopCaptureVariant::FullA03f => {
                let v: Vec<u8> = vec![
                    0x10, 0x00, 0x00, 0x01, 0x00, 0x02, 0x00, 0x03, 0x00, 0x04, 0x00, 0x00, 0x00,
                    0x19, 0x00, 0x02, 0x00, 0x00, 0x00, 0x00, 0x00, 0x0f, 0xb2, 0x00, 0x03, 0x59,
                    0xc7, 0x00, 0x00, 0x00, 0x09, 0x57, 0x59, 0xb3, 0x00, 0x03, 0xb0, 0x00, 0x00,
                    0x00, 0x05, 0x00, 0x00, 0x00, 0x00, 0x00, 0x06, 0x00, 0x00, 0x00, 0x00,
                ];
                assert(v@ =~= self.body_spec());
                v
            },
            StopCaptureVariant::FullBase9d58 => {
                let v: Vec<u8> = vec![
                    0x10, 0x00, 0x00, 0x01, 0x00, 0x02, 0x00, 0x03, 0x00, 0x04, 0x00, 0x00, 0x00,
                    0x1f, 0x00, 0x02, 0x00, 0x00, 0x00, 0x00, 0x00, 0x0b, 0xb2, 0x00, 0x03, 0x59,
                    0xc7, 0x00, 0x00, 0x00, 0x05, 0x57, 0xb0, 0x00, 0x01, 0x00, 0x05, 0x00, 0x00,
                    0x00, 0x04, 0x00, 0x01, 0xfb, 0x0a, 0x00, 0x06, 0x00, 0x00, 0x00, 0x00, 0x00,
                    0x07, 0x00, 0x00, 0x00, 0x00,
                ];
                assert(v@ =~= self.body_spec());
                v
            },
            StopCaptureVariant::FullA03f9d58 => {
                let v: Vec<u8> = vec![
                    0x10, 0x00, 0x00, 0x01, 0x00, 0x02, 0x00, 0x03, 0x00, 0x04, 0x00, 0x00, 0x00,
                    0x23, 0x00, 0x02, 0x00, 0x00, 0x00, 0x00, 0x00, 0x0f, 0xb2, 0x00, 0x03, 0x59,
                    0xc7, 0x00, 0x00, 0x00, 0x09, 0x57, 0x59, 0xb3, 0x00, 0x03, 0xb0, 0x00, 0x01,
                    0x00, 0x05, 0x00, 0x00, 0x00, 0x04, 0x00, 0x01, 0xfb, 0x0e, 0x00, 0x06, 0x00,
                    0x00, 0x00, 0x00, 0x00, 0x07, 0x00, 0x00, 0x00, 0x00,
                ];
                assert(v@ =~= self.body_spec());
                v
            },
            StopCaptureVariant::SeqBase => {
                let v: Vec<u8> = vec![
                    0x00, 0x02, 0x10, 0x8a, 0x00, 0x01, 0x00, 0x02, 0x00, 0x01, 0x00, 0x03, 0x00,
                    0x00, 0x00, 0x00, 0x10, 0x00, 0x00, 0x04, 0x00, 0x05, 0x00, 0x03, 0x00, 0x07,
                    0x00, 0x00, 0x00, 0x15, 0x00, 0x02, 0x00, 0x00, 0x00, 0x00, 0x00, 0x0b, 0xb2,
                    0x00, 0x06, 0x59, 0xc7, 0x00, 0x00, 0x00, 0x05, 0x57, 0xb0, 0x00, 0x00, 0x00,
                    0x08, 0x00, 0x00, 0x00, 0x00, 0x00, 0x03, 0x00, 0x00, 0x00, 0x00,
                ];
                assert(v@ =~= self.body_spec());
                v
            },
            StopCaptureVariant::SeqA03f => {
                let v: Vec<u8> = vec![
                    0x00, 0x02, 0x10, 0x8a, 0x00, 0x01, 0x00, 0x02, 0x00, 0x01, 0x00, 0x03, 0x00,
                    0x00, 0x00, 0x00, 0x10, 0x00, 0x00, 0x04, 0x00, 0x05, 0x00, 0x03, 0x00, 0x07,
                    0x00, 0x00, 0x00, 0x19, 0x00, 0x02, 0x00, 0x00, 0x00, 0x00, 0x00, 0x0f, 0xb2,
                    0x00, 0x06, 0x59, 0xc7, 0x00, 0x00, 0x00, 0x09, 0x57, 0x59, 0xb3, 0x00, 0x06,
                    0xb0, 0x00, 0x00, 0x00, 0x08, 0x00, 0x00, 0x00, 0x00, 0x00, 0x03, 0x00, 0x00,
                    0x00, 0x00,
                ];
                assert(v@ =~= self.body_spec());
                v
            },
            StopCaptureVariant::Seq4121 => {
                let v: Vec<u8> = vec![
                    0x00, 0x02, 0x10, 0x19, 0x00, 0x01, 0x00, 0x02, 0x00, 0x01, 0x00, 0x03, 0x00,
                    0x00, 0x00, 0x00, 0x10, 0x00, 0x00, 0x04, 0x00, 0x05, 0x00, 0x03, 0x00, 0x07,
                    0x00, 0x00, 0x00, 0x23, 0x00, 0x02, 0x00, 0x00, 0x00, 0x00, 0x00, 0x0f, 0xb2,
                    0x00, 0x06, 0x59, 0xc7, 0x00, 0x00, 0x00, 0x09, 0x57, 0x59, 0xb3, 0x00, 0x06,
                    0xb0, 0x00, 0x01, 0x00, 0x08, 0x00, 0x00, 0x00, 0x04, 0x00, 0x01, 0xfb, 0x0e,
                    0x00, 0x09, 0x00, 0x00, 0x00, 0x00, 0x00, 0x0a, 0x00, 0x00, 0x00, 0x00,
                ];
                assert(v@ =~= self.body_spec());
                v
            },
            StopCaptureVariant::SeqWrappedA03f => {
                let v: Vec<u8> = vec![
                    0x00, 0x03, 0x10, 0x89, 0x00, 0x01, 0x00, 0x02, 0x00, 0x01, 0x00, 0x03, 0x00,
                    0x00, 0x00, 0x00, 0x10, 0x8a, 0x00, 0x04, 0x00, 0x05, 0x00, 0x01, 0x00, 0x03,
                    0x00, 0x00, 0x00, 0x00, 0x10, 0x00, 0x00, 0x06, 0x00, 0x07, 0x00, 0x03, 0x00,
                    0x09, 0x00, 0x00, 0x00, 0x19, 0x00, 0x02, 0x00, 0x00, 0x00, 0x00, 0x00, 0x0f,
                    0xb2, 0x00, 0x08, 0x59, 0xc7, 0x00, 0x00, 0x00, 0x09, 0x57, 0x59, 0xb3, 0x00,
                    0x08, 0xb0, 0x00, 0x00, 0x00, 0x0a, 0x00, 0x00, 0x00, 0x00, 0x00, 0x03, 0x00,
                    0x00, 0x00, 0x00,
                ];
                assert(v@ =~= self.body_spec());
                v
            },
            StopCaptureVariant::Command199Empty => {
                let v: Vec<u8> = Vec::new();
                assert(v@ =~= self.body_spec());
                v
            },
            StopCaptureVariant::Command199Selector => {
                let v: Vec<u8> = vec![
                    0xb2, 0x00, 0x03, 0x59, 0xc7, 0x00, 0x00, 0x00, 0x09, 0x57, 0x59, 0xb3, 0x00,
                    0x03, 0xb0,
                ];
                assert(v@ =~= self.body_spec());
                v
            },
        }
    }

    /// What the candidate is, as the probe reports it.
    pub fn note(self) -> (r: &'static str)
        ensures
            match self {
                StopCaptureVariant::Base => r@ == "APK-derived StopCapture candidate: base branch body b2 0003 59 c7 00000005 57 b0."@,
                StopCaptureVariant::A03f => r@ == "APK-derived StopCapture candidate: a03f branch body b2 0003 59 c7 00000009 57 59 b3 0003 b0."@,
                StopCaptureVariant::FullBase => r@ == "APK-derived StopCapture candidate: full 0x471b8c builder node, base branch, no 9d58 extension."@,
                StopCaptureVariant::FullA03f => r@ == "APK-derived StopCapture candidate: full 0x471b8c builder node, a03f branch, no 9d58 extension."@,
                StopCaptureVariant::FullBase9d58 => r@ == "APK-derived StopCapture candidate: full 0x471b8c builder node, base branch, with 9d58 extension."@,
                StopCaptureVariant::FullA03f9d58 => r@ == "APK-derived StopCapture candidate: full 0x471b8c builder node, a03f branch, with 9d58 extension."@,
                StopCaptureVariant::SeqBase => r@ == "APK-derived StopCapture action-list candidate: a03c marker 4234 plus base builder node; not full root.9cd6 output."@,
                StopCaptureVariant::SeqA03f => r@ == "APK-derived StopCapture action-list candidate: a03c marker 4234 plus a03f builder node; not full root.9cd6 output."@,
                StopCaptureVariant::Seq4121 => r@ == "APK-derived StopCapture action-list candidate: a066 marker 4121 plus mandatory 9d58 builder node; not full root.9cd6 output."@,
                StopCaptureVariant::SeqWrappedA03f => r@ == "APK-derived StopCapture action-list candidate: 480fcc/a0e4 wrapper marker 4233, then a03c marker 4234, then a03f builder node; not full root.9cd6 output."@,
                StopCaptureVariant::Command199Empty => r@ == "APK-derived StopCapture candidate: seg08 selector 199 used as ee91 command id, seg07 StopCapture{} empty body."@,
                StopCaptureVariant::Command199Selector => r@ == "APK-derived StopCapture candidate: seg08 selector 199 used as ee91 command id with recovered StopCapture selector body."@,
            },
    {
        match self {
            StopCaptureVariant::Base => "APK-derived StopCapture candidate: base branch body b2 0003 59 c7 00000005 57 b0.",
            StopCaptureVariant::A03f => "APK-derived StopCapture candidate: a03f branch body b2 0003 59 c7 00000009 57 59 b3 0003 b0.",
            StopCaptureVariant::FullBase => "APK-derived StopCapture candidate: full 0x471b8c builder node, base branch, no 9d58 extension.",
            StopCaptureVariant::FullA03f => "APK-derived StopCapture candidate: full 0x471b8c builder node, a03f branch, no 9d58 extension.",
            StopCaptureVariant::FullBase9d58 => "APK-derived StopCapture candidate: full 0x471b8c builder node, base branch, with 9d58 extension.",
            StopCaptureVariant::FullA03f9d58 => "APK-derived StopCapture candidate: full 0x471b8c builder node, a03f branch, with 9d58 extension.",
            StopCaptureVariant::SeqBase => "APK-derived StopCapture action-list candidate: a03c marker 4234 plus base builder node; not full root.9cd6 output.",
            StopCaptureVariant::SeqA03f => "APK-derived StopCapture action-list candidate: a03c marker 4234 plus a03f builder node; not full root.9cd6 output.",
            StopCaptureVariant::Seq4121 => "APK-derived StopCapture action-list candidate: a066 marker 4121 plus mandatory 9d58 builder node; not full root.9cd6 output.",
            StopCaptureVariant::SeqWrappedA03f => "APK-derived StopCapture action-list candidate: 480fcc/a0e4 wrapper marker 4233, then a03c marker 4234, then a03f builder node; not full root.9cd6 output.",
            StopCaptureVariant::Command199Empty => "APK-derived StopCapture candidate: seg08 selector 199 used as ee91 command id, seg07 StopCapture{} empty body.",
            StopCaptureVariant::Command199Selector => "APK-derived StopCapture candidate: seg08 selector 199 used as ee91 command id with recovered StopCapture selector body.",
        }
    }
}

/// The frame that sends a stop-capture candidate: the candidate's body in an internal packet
/// (method 2, request 0x80000001) with its command id, framed as group 4, code 0x10.
pub fn stop_capture_candidate_frame(variant: StopCaptureVariant) -> (r: Vec<u8>)
    ensures
        r@ == ucd2_frame_spec(0x04, 0x10, internal_packet_spec(variant.command_id_spec(), 0x02, 0x8000_0001, variant.body_spec())),
{
    let body = variant.body();
    let payload = build_internal_packet(variant.command_id(), 0x02, body.as_slice());
    build_ucd2_frame(0x04, 0x10, payload.as_slice())
}

/// The body of the status query that opens a session: fields 1 with values 0x30, 0x0f, 0x0b.
pub open spec fn opening_query_body() -> Seq<u8> {
    seq![0x08u8, 0x30, 0x08, 0x0f, 0x08, 0x0b]
}

/// The two frames that open a UCD2 session: the session reset (group 5, code 0x0f, no
/// payload) and the status query 0x0008 with request id 0x80000001 (group 4, code 0x10).
pub fn session_opening_frames() -> (r: Vec<Vec<u8>>)
    ensures
        r@.len() == 2,
        r@[0]@ == ucd2_frame_spec(0x05, 0x0f, Seq::empty()),
        r@[1]@ == ucd2_frame_spec(0x04, 0x10, internal_packet_spec(0x0008, 0x02, 0x8000_0001, opening_query_body())),
{
    let empty: Vec<u8> = Vec::new();
    let reset = build_ucd2_frame(0x05, 0x0f, empty.as_slice());
    assert(empty@ =~= Seq::<u8>::empty());
    let body: Vec<u8> = vec![0x08, 0x30, 0x08, 0x0f, 0x08, 0x0b];
    assert(body@ =~= opening_query_body());
    let payload = build_internal_packet_with_request_id(0x0008, 0x02, 0x8000_0001, body.as_slice());
    let query = build_ucd2_frame(0x04, 0x10, payload.as_slice());
    let mut frames: Vec<Vec<u8>> = Vec::new();
    frames.push(reset);
    frames.push(query);
    frames
}

/// The device information request: the opening status query framed as group 4, code 0x10.
pub fn device_info_frame() -> (r: Vec<u8>)
    ensures
        r@ == ucd2_frame_spec(0x04, 0x10, internal_packet_spec(0x0008, 0x02, 0x8000_0001, opening_query_body())),
{
    let body: Vec<u8> = vec![0x08, 0x30, 0x08, 0x0f, 0x08, 0x0b];
    assert(body@ =~= opening_query_body());
    let payload = build_internal_packet_with_request_id(0x0008, 0x02, 0x8000_0001, body.as_slice());
    build_ucd2_frame(0x04, 0x10, payload.as_slice())
}

/// The bytes of the lower-level negotiation sync: `syNceNdinS`.
pub fn negotiation_sync_bytes() -> (r: Vec<u8>)
    ensures
        r@ == seq![0x73u8, 0x79, 0x4e, 0x63, 0x65, 0x4e, 0x64, 0x69, 0x6e, 0x53],
{
    vec![0x73, 0x79, 0x4e, 0x63, 0x65, 0x4e, 0x64, 0x69, 0x6e, 0x53]
}

/// Whether the camera answered on its web port and its control port.
#[derive(Debug, Clone)]
pub struct LunaStatus {
    pub host: String,
    pub http_ok: bool,
    pub control_ok: bool,
    pub message: String,
}

/// The message for a reachability check.
pub open spec fn status_text_spec(http_ok: bool, control_ok: bool, touched_control: bool) -> Seq<char> {
    if http_ok && control_ok {
        "Detected Luna HTTP and UCD2 control ports"@
    } else if http_ok && touched_control {
        "HTTP reachable, but UCD2 control port 6666 is unavailable"@
    } else if http_ok {
        "HTTP reachable. Control port not touched; use List media to open UCD2 session."@
    } else if control_ok {
        "UCD2 control reachable, but HTTP port 80 is unavailable"@
    } else {
        "Camera not reachable on ports 80/6666"@
    }
}

/// The status of a reachability check: the control port counts as reachable only when it was
/// tried.
pub fn luna_status(host: &str, http_ok: bool, control_reachable: bool, touch_control: bool) -> (r: LunaStatus)
    ensures
        r.host@ == host@,
        r.http_ok == http_ok,
        r.control_ok == (touch_control && control_reachable),
        r.message@ == status_text_spec(http_ok, touch_control && control_reachable, touch_control),
{
    let control_ok = touch_control && control_reachable;
    let message = if http_ok && control_ok {
        "Detected Luna HTTP and UCD2 control ports"
    } else if http_ok && touch_control {
        "HTTP reachable, but UCD2 control port 6666 is unavailable"
    } else if http_ok {
        "HTTP reachable. Control port not touched; use List media to open UCD2 session."
    } else if control_ok {
        "UCD2 control reachable, but HTTP port 80 is unavailable"
    } else {
        "Camera not reachable on ports 80/6666"
    };
    LunaStatus { host: host.to_owned(), http_ok, control_ok, message: message.to_owned() }
}

/// A chunk of the live preview stream.
#[derive(Debug, Clone)]
pub struct LivePreviewChunk {
    pub data: Vec<u8>,
}

/// Characters that typed-in hex may hold between the digits: ASCII white space, `-` and `:`.
pub open spec fn is_hex_noise(c: char) -> bool {
    is_ascii_whitespace_spec(c) || c == '-' || c == ':'
}

/// `s` without the characters that may stand between hex digits.
pub open spec fn clean_hex_spec(s: Seq<char>) -> Seq<char>
    decreases s.len(),
{
    if s.len() == 0 {
        Seq::empty()
    } else {
        let prev = clean_hex_spec(s.drop_last());
        if is_hex_noise(s.last()) {
            prev
        } else {
            prev.push(s.last())
        }
    }
}

/// Whether `b` continues a multi-byte UTF-8 character.
pub open spec fn is_continuation_byte(b: u8) -> bool {
    0x80 <= b <= 0xbf
}

/// What `u8::from_str_radix(_, 16)` makes of two bytes: a hex digit after `+`, or two hex
/// digits.
pub open spec fn hex_window_value(x: u8, y: u8) -> Option<u8> {
    if x == 0x2b {
        hex_value(y)
    } else {
        match (hex_value(x), hex_value(y)) {
            (Some(h), Some(l)) => Some((h * 16 + l) as u8),
            _ => None,
        }
    }
}

/// The bytes that the two-byte windows of `b` from `k` on stand for: `Some(None)` when a window
/// is no hex byte, and `None` when a window would cut a character in two (which the slicing of
/// the text does not allow).
pub open spec fn decode_hex_from(b: Seq<u8>, k: int) -> Option<Option<Seq<u8>>>
    decreases b.len() - k,
{
    if k < 0 || k + 2 > b.len() {
        Some(Some(Seq::empty()))
    } else if is_continuation_byte(b[k]) || (k + 2 < b.len() && is_continuation_byte(b[k + 2])) {
        None
    } else {
        match hex_window_value(b[k], b[k + 1]) {
            None => Some(None),
            Some(v) => match decode_hex_from(b, k + 2) {
                None => None,
                Some(None) => Some(None),
                Some(Some(rest)) => Some(Some(seq![v] + rest)),
            },
        }
    }
}

/// What one line of typed-in hex gives: `Ok(None)` for a blank line, the packet, or the error
/// with the trimmed line (`true` for an odd number of digits, `false` for a window that is no
/// hex byte); `None` when the line cannot be sliced into windows.
pub open spec fn hex_line_spec(line: Seq<char>) -> Option<Result<Option<Seq<u8>>, (bool, Seq<char>)>> {
    let t = trim_spec(line);
    if t.len() == 0 {
        Some(Ok(None))
    } else {
        let b = encode_utf8(clean_hex_spec(t));
        if b.len() % 2 != 0 {
            Some(Err((true, t)))
        } else {
            match decode_hex_from(b, 0) {
                None => None,
                Some(None) => Some(Err((false, t))),
                Some(Some(p)) => Some(Ok(Some(p))),
            }
        }
    }
}

/// The index of the first line feed at or after `i`, or the length.
pub open spec fn next_newline(s: Seq<char>, i: int) -> int
    decreases s.len() - i,
{
    if i < 0 || i >= s.len() {
        s.len() as int
    } else if s[i] == '\n' {
        i
    } else {
        next_newline(s, i + 1)
    }
}

pub proof fn lemma_next_newline(s: Seq<char>, i: int)
    requires
        0 <= i <= s.len(),
    ensures
        i <= next_newline(s, i) <= s.len(),
        next_newline(s, i) < s.len() ==> s[next_newline(s, i)] == '\n',
        forall|k: int| i <= k < next_newline(s, i) ==> s[k] != '\n',
    decreases s.len() - i,
{
    if i < s.len() && s[i] != '\n' {
        lemma_next_newline(s, i + 1);
    }
}

/// Combines the outcome of one line with the outcome of the lines after it.
pub open spec fn then_lines(first: Option<Result<Option<Seq<u8>>, (bool, Seq<char>)>>, rest: Option<Result<Seq<Seq<u8>>, (bool, Seq<char>)>>) -> Option<Result<Seq<Seq<u8>>, (bool, Seq<char>)>> {
    match first {
        None => None,
        Some(Err(e)) => Some(Err(e)),
        Some(Ok(p)) => match rest {
            None => None,
            Some(Err(e)) => Some(Err(e)),
            Some(Ok(ps)) => Some(
                Ok(
                    match p {
                        Some(x) => seq![x] + ps,
                        None => ps,
                    },
                ),
            ),
        },
    }
}

/// The packets typed in as hex from `start` on, one per non-blank line; the first line in
/// error decides the error.
pub open spec fn hex_packets_from(s: Seq<char>, start: int) -> Option<Result<Seq<Seq<u8>>, (bool, Seq<char>)>>
    decreases s.len() - start, 1int,
{
    if start < 0 || start > s.len() {
        Some(Ok(Seq::empty()))
    } else {
        let e = next_newline(s, start);
        proof {
            lemma_next_newline(s, start);
        }
        then_lines(
            hex_line_spec(s.subrange(start, e)),
            if e >= s.len() {
                Some(Ok(Seq::empty()))
            } else {
                hex_packets_from(s, e + 1)
            },
        )
    }
}

/// The packets `ps` of an outcome preceded by `views`.
pub open spec fn with_packets_before(views: Seq<Seq<u8>>, o: Option<Result<Seq<Seq<u8>>, (bool, Seq<char>)>>) -> Option<Result<Seq<Seq<u8>>, (bool, Seq<char>)>> {
    match o {
        None => None,
        Some(Err(e)) => Some(Err(e)),
        Some(Ok(ps)) => Some(Ok(views + ps)),
    }
}

/// The packet of a line, as a sequence of at most one packet.
pub open spec fn packet_seq(p: Option<Seq<u8>>) -> Seq<Seq<u8>> {
    match p {
        Some(x) => seq![x],
        None => Seq::empty(),
    }
}

proof fn lemma_line_step(views: Seq<Seq<u8>>, p: Option<Seq<u8>>, tail: Option<Result<Seq<Seq<u8>>, (bool, Seq<char>)>>)
    ensures
        with_packets_before(views, then_lines(Some(Ok(p)), tail)) == with_packets_before(views + packet_seq(p), tail),
{
    if let Some(Ok(ps)) = tail {
        match p {
            Some(x) => {
                assert(views + (seq![x] + ps) =~= views + seq![x] + ps);
            },
            None => {
                assert(views + ps =~= views + Seq::<Seq<u8>>::empty() + ps);
            },
        }
    }
}

/// Why typed-in hex packets were refused; each holds the trimmed line.
#[derive(Debug, Clone)]
pub enum HexPacketError {
    OddLength(String),
    InvalidByte(String),
}

impl HexPacketError {
    /// The error as plain values: `true` for an odd number of digits, and the line.
    pub open spec fn spec_of(self) -> (bool, Seq<char>) {
        match self {
            HexPacketError::OddLength(l) => (true, l@),
            HexPacketError::InvalidByte(l) => (false, l@),
        }
    }

    /// The message shown to the user.
    pub fn message(&self) -> (r: String)
        ensures
            self.spec_of().0 ==> r@ == "hex packet has odd length: "@ + self.spec_of().1,
            !self.spec_of().0 ==> r@ == "invalid hex byte in packet: "@ + self.spec_of().1,
    {
        let mut out: Vec<char> = Vec::new();
        match self {
            HexPacketError::OddLength(l) => {
                push_str(&mut out, "hex packet has odd length: ");
                push_str(&mut out, l.as_str());
            },
            HexPacketError::InvalidByte(l) => {
                push_str(&mut out, "invalid hex byte in packet: ");
                push_str(&mut out, l.as_str());
            },
        }
        string_from_chars(out.as_slice())
    }
}

/// `line` without the characters that may stand between hex digits.
fn clean_hex_chars(line: &[char]) -> (r: Vec<char>)
    ensures
        r@ == clean_hex_spec(line@),
{
    let n = line.len();
    let mut out: Vec<char> = Vec::new();
    let mut i: usize = 0;
    while i < n
        invariant
            n == line@.len(),
            i <= n,
            out@ == clean_hex_spec(line@.subrange(0, i as int)),
        decreases n - i,
    {
        let ghost next = line@.subrange(0, i + 1);
        assert(next.drop_last() =~= line@.subrange(0, i as int));
        let c = line[i];
        if !(c == ' ' || c == '\t' || c == '\n' || c == '\x0c' || c == '\r' || c == '-' || c == ':') {
            out.push(c);
        }
        i = i + 1;
    }
    assert(line@.subrange(0, n as int) =~= line@);
    out
}

/// The value of a hex digit.
fn hex_nibble(b: u8) -> (r: Option<u8>)
    ensures
        r == hex_value(b),
{
    if 0x30 <= b && b <= 0x39 {
        Some(b - 0x30)
    } else if 0x61 <= b && b <= 0x66 {
        Some(b - 0x61 + 10)
    } else if 0x41 <= b && b <= 0x46 {
        Some(b - 0x41 + 10)
    } else {
        None
    }
}

proof fn lemma_decode_prefix(b: Seq<u8>, out: Seq<u8>, k: int, v: u8)
    requires
        0 <= k,
        k + 2 <= b.len(),
        !is_continuation_byte(b[k]),
        !(k + 2 < b.len() && is_continuation_byte(b[k + 2])),
        hex_window_value(b[k], b[k + 1]) == Some(v),
    ensures
        (match decode_hex_from(b, k) {
            None => None::<Option<Seq<u8>>>,
            Some(None) => Some(None),
            Some(Some(r)) => Some(Some(out + r)),
        }) == (match decode_hex_from(b, k + 2) {
            None => None::<Option<Seq<u8>>>,
            Some(None) => Some(None),
            Some(Some(r)) => Some(Some(out.push(v) + r)),
        }),
{
    if let Some(Some(r)) = decode_hex_from(b, k + 2) {
        assert(out + (seq![v] + r) =~= out.push(v) + r);
    }
}

/// The bytes the two-byte windows of `b` stand for.
pub fn decode_hex_windows(b: &[u8]) -> (r: Option<Option<Vec<u8>>>)
    requires
        b@.len() % 2 == 0,
    ensures
        match decode_hex_from(b@, 0) {
            None => r is None,
            Some(None) => r == Some(None::<Vec<u8>>),
            Some(Some(p)) => (r matches Some(Some(v)) && v@ == p),
        },
{
    let n = b.len();
    let mut out: Vec<u8> = Vec::new();
    let mut k: usize = 0;
    while k < n
        invariant
            n == b@.len(),
            n % 2 == 0,
            k % 2 == 0,
            k <= n,
            (match decode_hex_from(b@, 0) {
                None => None::<Option<Seq<u8>>>,
                Some(None) => Some(None),
                Some(Some(r)) => Some(Some(r)),
            }) == (match decode_hex_from(b@, k as int) {
                None => None::<Option<Seq<u8>>>,
                Some(None) => Some(None),
                Some(Some(r)) => Some(Some(out@ + r)),
            }),
        decreases n - k,
    {
        if (0x80 <= b[k] && b[k] <= 0xbf) || (n - k > 2 && 0x80 <= b[k + 2] && b[k + 2] <= 0xbf) {
            return None;
        }
        let v = if b[k] == 0x2b {
            hex_nibble(b[k + 1])
        } else {
            match (hex_nibble(b[k]), hex_nibble(b[k + 1])) {
                (Some(h), Some(l)) => Some(h * 16 + l),
                _ => None,
            }
        };
        match v {
            None => {
                return Some(None);
            },
            Some(x) => {
                proof {
                    lemma_decode_prefix(b@, out@, k as int, x);
                }
                out.push(x);
                k = k + 2;
            },
        }
    }
    assert(out@ + Seq::<u8>::empty() =~= out@);
    Some(Some(out))
}

/// Reads typed-in hex packets line by line: `None` where a cleaned line would have to be cut
/// inside a character.
fn read_hex_packets(input: &str) -> (r: Option<Result<Vec<Vec<u8>>, HexPacketError>>)
    ensures
        match hex_packets_from(input@, 0) {
            Some(Ok(ps)) => (r matches Some(Ok(v)) && v@.len() == ps.len() && forall|k: int|
                0 <= k < ps.len() ==> #[trigger] v@[k]@ == ps[k]),
            Some(Err(e)) => (r matches Some(Err(err)) && err.spec_of() == e),
            None => r is None,
        },
{
    let s = chars_of(input);
    let n = s.len();
    let mut packets: Vec<Vec<u8>> = Vec::new();
    let ghost packet_views: Seq<Seq<u8>> = Seq::empty();
    let mut start: usize = 0;
    loop
        invariant
            n == s@.len(),
            s@ == input@,
            start <= n,
            packets@.len() == packet_views.len(),
            forall|k: int| 0 <= k < packet_views.len() ==> #[trigger] packets@[k]@ == packet_views[k],
            hex_packets_from(input@, 0) == with_packets_before(packet_views, hex_packets_from(input@, start as int)),
        decreases n - start,
    {
        proof {
            lemma_next_newline(s@, start as int);
        }
        let mut e = start;
        while e < n && s[e] != '\n'
            invariant
                n == s@.len(),
                start <= e <= n,
                next_newline(s@, start as int) == next_newline(s@, e as int),
            decreases n - e,
        {
            e = e + 1;
        }
        assert(e == next_newline(s@, start as int));
        let line = slice_chars(s.as_slice(), start, e);
        let trimmed = trim_chars(line.as_slice());
        let ghost line_outcome = hex_line_spec(line@);
        let ghost tail = if e >= n {
            Some(Ok(Seq::<Seq<u8>>::empty()))
        } else {
            hex_packets_from(input@, e + 1)
        };
        assert(hex_packets_from(input@, start as int) == then_lines(line_outcome, tail));
        let ghost old_views = packet_views;
        if trimmed.len() == 0 {
            proof {
                assert(line_outcome == Some(Ok::<Option<Seq<u8>>, (bool, Seq<char>)>(None)));
                lemma_line_step(old_views, None, tail);
                assert(old_views + packet_seq(None) =~= old_views);
            }
        }
        if trimmed.len() > 0 {
            let clean = clean_hex_chars(trimmed.as_slice());
            let clean_text = string_from_chars(clean.as_slice());
            let bytes = clean_text.as_str().as_bytes();
            assert(bytes@ == encode_utf8(clean@));
            if bytes.len() % 2 != 0 {
                return Some(Err(HexPacketError::OddLength(string_from_chars(trimmed.as_slice()))));
            }
            match decode_hex_windows(bytes) {
                None => {
                    return None;
                },
                Some(None) => {
                    return Some(Err(HexPacketError::InvalidByte(string_from_chars(trimmed.as_slice()))));
                },
                Some(Some(packet)) => {
                    proof {
                        assert(line_outcome == Some(Ok::<Option<Seq<u8>>, (bool, Seq<char>)>(Some(packet@))));
                        lemma_line_step(old_views, Some(packet@), tail);
                        packet_views = packet_views.push(packet@);
                        assert(old_views + packet_seq(Some(packet@)) =~= packet_views);
                    }
                    packets.push(packet);
                },
            }
        }
        if e >= n {
            assert(packet_views + Seq::<Seq<u8>>::empty() =~= packet_views);
            return Some(Ok(packets));
        }
        start = e + 1;
    }
}

/// Whether typed-in hex can be read at all: reading cuts each cleaned line into two-byte
/// windows, which a character of more than one byte in the wrong place does not allow.
pub fn hex_packets_fit_windows(input: &str) -> (r: bool)
    ensures
        r == (hex_packets_from(input@, 0) is Some),
{
    read_hex_packets(input).is_some()
}

/// Reads packets typed in as hex, one per non-blank line. Between the digits a line may hold
/// ASCII white space, `-` and `:`; a digit pair may also be `+` and one digit. A line with an
/// odd number of digits, or a pair that is no hex byte, refuses the whole input.
pub fn parse_hex_packets(input: &str) -> (r: Result<Vec<Vec<u8>>, HexPacketError>)
    requires
        hex_packets_from(input@, 0) is Some,
    ensures
        match hex_packets_from(input@, 0) {
            Some(Ok(ps)) => (r matches Ok(v) && v@.len() == ps.len() && forall|k: int| 0 <= k < ps.len() ==> #[trigger] v@[k]@ == ps[k]),
            Some(Err(e)) => (r matches Err(err) && err.spec_of() == e),
            None => false,
        },
{
    read_hex_packets(input).unwrap()
}

/// The hex printing of packets, one per line: each packet as `bytes_to_hex` writes it, the
/// lines joined by line feeds.
pub open spec fn hex_lines(ps: Seq<Seq<u8>>) -> Seq<char>
    decreases ps.len(),
{
    if ps.len() == 0 {
        Seq::empty()
    } else if ps.len() == 1 {
        hex_spec(ps[0])
    } else {
        hex_spec(ps[0]) + seq!['\n'] + hex_lines(ps.drop_first())
    }
}

/// The shape of a nonempty hex printing: three characters a byte less one, a hex digit at
/// each end, and no line feed.
proof fn lemma_hex_spec_shape(p: Seq<u8>)
    requires
        p.len() > 0,
    ensures
        hex_spec(p).len() == 3 * p.len() - 1,
        hex_spec(p)[0] == hex_digit_char((p[0] / 16) as nat),
        hex_spec(p).last() == hex_digit_char((p.last() % 16) as nat),
        forall|k: int| 0 <= k < hex_spec(p).len() ==> #[trigger] hex_spec(p)[k] != '\n',
    decreases p.len(),
{
    if p.len() > 1 {
        let init = p.drop_last();
        lemma_hex_spec_shape(init);
        let h = hex_spec(p);
        let hi = hex_spec(init);
        assert(h == hi + seq![' '] + hex_pair(p.last()));
        assert(init[0] == p[0]);
        assert forall|k: int| 0 <= k < h.len() implies #[trigger] h[k] != '\n' by {
            if k < hi.len() {
                assert(h[k] == hi[k]);
            }
        }
    }
}

/// Cleaning a text piece by piece gives the cleaned pieces one after the other.
proof fn lemma_clean_hex_append(a: Seq<char>, b: Seq<char>)
    ensures
        clean_hex_spec(a + b) == clean_hex_spec(a) + clean_hex_spec(b),
    decreases b.len(),
{
    if b.len() == 0 {
        assert(a + b =~= a);
        assert(clean_hex_spec(a) + clean_hex_spec(b) =~= clean_hex_spec(a));
    } else {
        assert((a + b).drop_last() =~= a + b.drop_last());
        assert((a + b).last() == b.last());
        lemma_clean_hex_append(a, b.drop_last());
        if !is_hex_noise(b.last()) {
            assert(clean_hex_spec(a) + clean_hex_spec(b) =~= (clean_hex_spec(a) + clean_hex_spec(
                b.drop_last(),
            )).push(b.last()));
        }
    }
}

/// Cleaning the hex printing of a packet leaves its digits without spaces.
proof fn lemma_clean_hex_printing(p: Seq<u8>)
    ensures
        clean_hex_spec(hex_spec(p)) == crate::luna_client::plain_hex_spec(p),
    decreases p.len(),
{
    let pair_of = |b: u8| hex_pair(b);
    if p.len() == 0 {
        assert(hex_spec(p) =~= Seq::<char>::empty());
    } else {
        let b = p.last();
        let pair = hex_pair(b);
        assert(clean_hex_spec(pair) == pair) by {
            assert(!is_hex_noise(pair[0]));
            assert(!is_hex_noise(pair[1]));
            assert(pair.drop_last() =~= seq![pair[0]]);
            let one = seq![pair[0]];
            assert(one.drop_last() =~= Seq::<char>::empty());
            assert(clean_hex_spec(Seq::<char>::empty()) =~= Seq::<char>::empty());
            assert(clean_hex_spec(one.drop_last()) =~= Seq::<char>::empty());
            assert(one.last() == pair[0]);
            assert(clean_hex_spec(one) =~= Seq::<char>::empty().push(pair[0]));
            assert(clean_hex_spec(one) =~= one);
            assert(seq![pair[0]].push(pair[1]) =~= pair);
        }
        if p.len() == 1 {
            assert(p.drop_last() =~= Seq::<u8>::empty());
            assert(hex_spec(p) == pair);
            assert(p.last() == p[0]);
            assert(crate::luna_client::plain_hex_spec(p.drop_last()) =~= Seq::<char>::empty());
            assert(crate::luna_client::plain_hex_spec(p) =~= pair);
        } else {
            let init = p.drop_last();
            lemma_clean_hex_printing(init);
            assert(hex_spec(p) == hex_spec(init) + seq![' '] + pair);
            lemma_clean_hex_append(hex_spec(init) + seq![' '], pair);
            lemma_clean_hex_append(hex_spec(init), seq![' ']);
            let space = seq![' '];
            assert(space.drop_last() =~= Seq::<char>::empty());
            assert(clean_hex_spec(Seq::<char>::empty()) =~= Seq::<char>::empty());
            assert(clean_hex_spec(space.drop_last()) =~= Seq::<char>::empty());
            assert(space.last() == ' ');
            assert(is_hex_noise(' '));
            assert(clean_hex_spec(space) =~= Seq::<char>::empty());
            assert(clean_hex_spec(hex_spec(init)) + Seq::<char>::empty() =~= clean_hex_spec(
                hex_spec(init),
            ));
        }
    }
}

/// Reading the two-byte windows of the hex digits of `p` from pair `k` on gives its bytes
/// from `k` on.
proof fn lemma_decode_hex_digits(p: Seq<u8>, k: int)
    requires
        0 <= k <= p.len(),
    ensures
        decode_hex_from(encode_utf8(crate::luna_client::plain_hex_spec(p)), 2 * k) == Some(
            Some(p.subrange(k, p.len() as int)),
        ),
    decreases p.len() - k,
{
    let h = encode_utf8(crate::luna_client::plain_hex_spec(p));
    let n = p.len() as int;
    crate::desktop::lemma_encode_plain_hex(p);
    if k == n {
        assert(p.subrange(k, n) =~= Seq::<u8>::empty());
    } else {
        lemma_decode_hex_digits(p, k + 1);
        let b = p[k];
        let hi = (b / 16) as nat;
        let lo = (b % 16) as nat;
        let x = crate::desktop::hex_digit_byte(hi);
        let y = crate::desktop::hex_digit_byte(lo);
        assert(h[2 * k] == x && h[2 * k + 1] == y);
        if k + 1 < n {
            let z = p[k + 1];
            assert(h[2 * (k + 1)] == crate::desktop::hex_digit_byte((z / 16) as nat));
            assert(!is_continuation_byte(h[2 * k + 2]));
        }
        assert(!is_continuation_byte(h[2 * k]));
        assert(hex_value(x) == Some(hi as u8));
        assert(hex_value(y) == Some(lo as u8));
        assert(hex_window_value(x, y) == Some(b));
        assert(seq![b] + p.subrange(k + 1, n) =~= p.subrange(k, n));
    }
}

/// One line holding the hex printing of a nonempty packet gives that packet.
proof fn lemma_hex_line_of_packet(p: Seq<u8>)
    requires
        p.len() > 0,
    ensures
        hex_line_spec(hex_spec(p)) == Some(Ok::<Option<Seq<u8>>, (bool, Seq<char>)>(Some(p))),
{
    let l = hex_spec(p);
    lemma_hex_spec_shape(p);
    let first = hex_digit_char((p[0] / 16) as nat);
    let last = hex_digit_char((p.last() % 16) as nat);
    assert(!is_whitespace_spec(first));
    assert(!is_whitespace_spec(last));
    assert(strip_start(l, |c: char| is_whitespace_spec(c)) == l);
    assert(strip_end(l, |c: char| is_whitespace_spec(c)) == l);
    assert(trim_spec(l) == l);
    lemma_clean_hex_printing(p);
    crate::desktop::lemma_encode_plain_hex(p);
    lemma_decode_hex_digits(p, 0);
    assert(p.subrange(0, p.len() as int) =~= p);
}

/// Where a line feed follows `x`, the search from inside `x + y` at `x.len() + j` is the search
/// in `y` from `j`, moved by `x.len()`.
proof fn lemma_next_newline_shift(x: Seq<char>, y: Seq<char>, j: int)
    requires
        0 <= j <= y.len(),
    ensures
        next_newline(x + y, x.len() + j) == x.len() + next_newline(y, j),
    decreases y.len() - j,
{
    if j < y.len() {
        assert((x + y)[x.len() + j] == y[j]);
        if y[j] != '\n' {
            lemma_next_newline_shift(x, y, j + 1);
        }
    }
}

/// Reading the lines of `x + y` from `x.len() + j` is reading the lines of `y` from `j`.
proof fn lemma_hex_packets_shift(x: Seq<char>, y: Seq<char>, j: int)
    requires
        0 <= j <= y.len(),
    ensures
        hex_packets_from(x + y, x.len() + j) == hex_packets_from(y, j),
    decreases y.len() - j,
{
    let s = x + y;
    lemma_next_newline_shift(x, y, j);
    lemma_next_newline(y, j);
    let e = next_newline(y, j);
    assert(s.subrange(x.len() + j, x.len() + e) =~= y.subrange(j, e));
    if e < y.len() {
        lemma_hex_packets_shift(x, y, e + 1);
    }
}

/// Reading the hex printing of packets, one per line, gives back those packets when none of
/// them is empty.
pub proof fn lemma_hex_packets_roundtrip(ps: Seq<Seq<u8>>)
    requires
        forall|i: int| 0 <= i < ps.len() ==> #[trigger] ps[i].len() > 0,
    ensures
        hex_packets_from(hex_lines(ps), 0) == Some(Ok::<Seq<Seq<u8>>, (bool, Seq<char>)>(ps)),
    decreases ps.len(),
{
    let s = hex_lines(ps);
    if ps.len() == 0 {
        assert(s =~= Seq::<char>::empty());
        assert(ps =~= Seq::<Seq<u8>>::empty());
        assert(next_newline(s, 0) == 0);
        assert(s.subrange(0, 0) =~= Seq::<char>::empty());
        assert(trim_spec(Seq::<char>::empty()) =~= Seq::<char>::empty());
        assert(hex_line_spec(s.subrange(0, 0)) == Some(Ok::<Option<Seq<u8>>, (bool, Seq<char>)>(None)));
    } else {
        let p = ps[0];
        let l = hex_spec(p);
        lemma_hex_line_of_packet(p);
        lemma_hex_spec_shape(p);
        if ps.len() == 1 {
            lemma_next_newline(s, 0);
            assert(next_newline(s, 0) == s.len()) by {
                if next_newline(s, 0) < s.len() {
                    assert(s[next_newline(s, 0)] == '\n');
                }
            }
            assert(s.subrange(0, s.len() as int) =~= l);
            assert(seq![p] + Seq::<Seq<u8>>::empty() =~= ps);
        } else {
            let rest = ps.drop_first();
            assert forall|i: int| 0 <= i < rest.len() implies #[trigger] rest[i].len() > 0 by {
                assert(rest[i] == ps[i + 1]);
            }
            lemma_hex_packets_roundtrip(rest);
            let x = l + seq!['\n'];
            let y = hex_lines(rest);
            assert(s == x + y);
            lemma_next_newline(s, 0);
            assert(next_newline(s, 0) == l.len()) by {
                let e = next_newline(s, 0);
                assert(s[l.len() as int] == '\n');
                if e < l.len() {
                    assert(s[e] == l[e]);
                }
            }
            assert(s.subrange(0, l.len() as int) =~= l);
            lemma_hex_packets_shift(x, y, 0);
            assert(seq![p] + rest =~= ps);
        }
    }
}

/// Lines joined by line feeds.
pub open spec fn join_lines(ls: Seq<Seq<char>>) -> Seq<char>
    decreases ls.len(),
{
    if ls.len() == 0 {
        Seq::empty()
    } else if ls.len() == 1 {
        ls[0]
    } else {
        ls[0] + seq!['\n'] + join_lines(ls.drop_first())
    }
}

/// An empty text holds no packet.
proof fn lemma_no_text_no_packets()
    ensures
        hex_packets_from(Seq::<char>::empty(), 0) == Some(Ok::<Seq<Seq<u8>>, (bool, Seq<char>)>(Seq::empty())),
{
    let s = Seq::<char>::empty();
    assert(next_newline(s, 0) == 0);
    assert(s.subrange(0, 0) =~= s);
    assert(trim_spec(s) =~= s);
}

/// Text is read line by line: the first line's outcome, then the rest.
pub proof fn lemma_lines_read_in_turn(ls: Seq<Seq<char>>)
    requires
        ls.len() > 0,
        forall|k: int| 0 <= k < ls[0].len() ==> #[trigger] ls[0][k] != '\n',
    ensures
        hex_packets_from(join_lines(ls), 0) == then_lines(
            hex_line_spec(ls[0]),
            hex_packets_from(join_lines(ls.drop_first()), 0),
        ),
{
    let s = join_lines(ls);
    let l = ls[0];
    lemma_next_newline(s, 0);
    if ls.len() == 1 {
        assert(ls.drop_first() =~= Seq::<Seq<char>>::empty());
        lemma_no_text_no_packets();
        assert(next_newline(s, 0) == s.len()) by {
            if next_newline(s, 0) < s.len() {
                assert(s[next_newline(s, 0)] == '\n');
            }
        }
        assert(s.subrange(0, s.len() as int) =~= l);
    } else {
        let x = l + seq!['\n'];
        let y = join_lines(ls.drop_first());
        assert(s == x + y);
        assert(next_newline(s, 0) == l.len()) by {
            let e = next_newline(s, 0);
            assert(s[l.len() as int] == '\n');
            if e < l.len() {
                assert(s[e] == l[e]);
            }
        }
        assert(s.subrange(0, l.len() as int) =~= l);
        lemma_hex_packets_shift(x, y, 0);
    }
}

/// A blank line, put anywhere among lines, changes nothing that is read.
pub proof fn lemma_blank_line_ignored(ls: Seq<Seq<char>>, k: int, blank: Seq<char>)
    requires
        0 <= k <= ls.len(),
        forall|i: int, j: int| 0 <= i < ls.len() && 0 <= j < ls[i].len() ==> #[trigger] ls[i][j] != '\n',
        forall|j: int| 0 <= j < blank.len() ==> #[trigger] blank[j] != '\n',
        trim_spec(blank).len() == 0,
    ensures
        hex_packets_from(join_lines(ls.insert(k, blank)), 0) == hex_packets_from(join_lines(ls), 0),
    decreases k,
{
    let with = ls.insert(k, blank);
    assert(hex_line_spec(blank) == Some(Ok::<Option<Seq<u8>>, (bool, Seq<char>)>(None)));
    if k == 0 {
        assert(with[0] == blank);
        assert(with.drop_first() =~= ls);
        lemma_lines_read_in_turn(with);
    } else {
        let rest = ls.drop_first();
        assert(with[0] == ls[0]);
        assert(with.drop_first() =~= rest.insert(k - 1, blank));
        assert forall|i: int, j: int| 0 <= i < rest.len() && 0 <= j < rest[i].len() implies #[trigger] rest[i][j]
            != '\n' by {
            assert(rest[i] == ls[i + 1]);
        }
        assert forall|j: int| 0 <= j < ls[0].len() implies #[trigger] ls[0][j] != '\n' by {
            assert(ls[0][j] == ls[0][j]);
        }
        lemma_blank_line_ignored(rest, k - 1, blank);
        lemma_lines_read_in_turn(with);
        lemma_lines_read_in_turn(ls);
    }
}

/// Dropping a separator from a text does not change its cleaned digits.
pub proof fn lemma_separator_dropped(a: Seq<char>, c: char, b: Seq<char>)
    requires
        is_hex_noise(c),
    ensures
        clean_hex_spec(a + seq![c] + b) == clean_hex_spec(a + b),
{
    lemma_clean_hex_append(a + seq![c], b);
    lemma_clean_hex_append(a, seq![c]);
    lemma_clean_hex_append(a, b);
    assert(seq![c].drop_last() =~= Seq::<char>::empty());
    assert(clean_hex_spec(Seq::<char>::empty()) =~= Seq::<char>::empty());
    assert(clean_hex_spec(seq![c]) =~= Seq::<char>::empty());
    assert(clean_hex_spec(a) + Seq::<char>::empty() =~= clean_hex_spec(a));
}

/// The first byte of the encoding of a character: itself for an ASCII character, a byte of
/// 0x80 or more for any other.
proof fn lemma_encode_first_byte(c: char)
    ensures
        encode_scalar(c as u32).len() >= 1,
        (c as u32) < 0x80 ==> encode_scalar(c as u32) == seq![(c as u32) as u8],
        (c as u32) >= 0x80 ==> encode_scalar(c as u32)[0] >= 0x80,
{
    let v = c as u32;
    char_is_scalar(c);
    if v < 0x80 {
        assert((v & 0x7f) as u8 == v as u8) by (bit_vector)
            requires
                v < 0x80,
        ;
    } else if has_width_2_encoding(v) {
        let x = ((v >> 6) & 0x1F) as u8;
        assert((0xC0u8 | x) >= 0x80) by (bit_vector);
    } else if has_width_3_encoding(v) {
        let x = ((v >> 12) & 0x0F) as u8;
        assert((0xE0u8 | x) >= 0x80) by (bit_vector);
    } else {
        let x = ((v >> 18) & 0x7) as u8;
        assert((0xF0u8 | x) >= 0x80) by (bit_vector);
    }
}

/// ASCII text is encoded one byte per character.
proof fn lemma_encode_ascii(c: Seq<char>)
    requires
        forall|i: int| 0 <= i < c.len() ==> (#[trigger] c[i] as u32) < 0x80,
    ensures
        encode_utf8(c).len() == c.len(),
        forall|i: int| 0 <= i < c.len() ==> #[trigger] encode_utf8(c)[i] == (c[i] as u32) as u8,
    decreases c.len(),
{
    if c.len() > 0 {
        let rest = c.drop_first();
        assert forall|i: int| 0 <= i < rest.len() implies (#[trigger] rest[i] as u32) < 0x80 by {
            assert(rest[i] == c[i + 1]);
        }
        lemma_encode_ascii(rest);
        lemma_encode_first_byte(c[0]);
        assert(c[0] as u32 == c[0] as u32);
        assert forall|i: int| 0 <= i < c.len() implies #[trigger] encode_utf8(c)[i] == (c[i] as u32) as u8 by {
            if i > 0 {
                assert(c[i] == rest[i - 1]);
            }
        }
    }
}

/// Text whose encoding is all ASCII bytes is ASCII.
proof fn lemma_ascii_from_bytes(c: Seq<char>)
    requires
        forall|k: int| 0 <= k < encode_utf8(c).len() ==> #[trigger] encode_utf8(c)[k] < 0x80,
    ensures
        forall|i: int| 0 <= i < c.len() ==> (#[trigger] c[i] as u32) < 0x80,
    decreases c.len(),
{
    if c.len() > 0 {
        let rest = c.drop_first();
        let e = encode_utf8(c);
        lemma_encode_first_byte(c[0]);
        assert(e[0] == encode_scalar(c[0] as u32)[0]);
        assert((c[0] as u32) < 0x80);
        assert forall|k: int| 0 <= k < encode_utf8(rest).len() implies #[trigger] encode_utf8(rest)[k] < 0x80 by {
            assert(encode_utf8(rest)[k] == e[k + 1]);
        }
        lemma_ascii_from_bytes(rest);
        assert forall|i: int| 0 <= i < c.len() implies (#[trigger] c[i] as u32) < 0x80 by {
            if i > 0 {
                assert(c[i] == rest[i - 1]);
            }
        }
    }
}

/// Bytes whose windows all read as hex bytes are ASCII.
proof fn lemma_decoded_windows_ascii(b: Seq<u8>, k: int)
    requires
        0 <= k <= b.len(),
        (b.len() - k) % 2 == 0,
        decode_hex_from(b, k) matches Some(Some(_)),
    ensures
        forall|j: int| k <= j < b.len() ==> #[trigger] b[j] < 0x80,
    decreases b.len() - k,
{
    if k + 2 <= b.len() {
        lemma_decoded_windows_ascii(b, k + 2);
    }
}

/// A byte with ASCII capitals made small.
pub open spec fn lower_byte(b: u8) -> u8 {
    if 0x41 <= b <= 0x5a {
        (b + 32) as u8
    } else {
        b
    }
}

/// Windows that agree up to letter case read the same.
proof fn lemma_windows_up_to_case(b1: Seq<u8>, b2: Seq<u8>, k: int)
    requires
        0 <= k <= b1.len(),
        b1.len() == b2.len(),
        forall|j: int| 0 <= j < b1.len() ==> #[trigger] b1[j] < 0x80 && b2[j] < 0x80 && lower_byte(b1[j])
            == lower_byte(b2[j]),
    ensures
        decode_hex_from(b1, k) == decode_hex_from(b2, k),
    decreases b1.len() - k,
{
    if k + 2 <= b1.len() {
        lemma_windows_up_to_case(b1, b2, k + 2);
        assert(b1[k] < 0x80 && b2[k] < 0x80 && lower_byte(b1[k]) == lower_byte(b2[k]));
        assert(b1[k + 1] < 0x80 && b2[k + 1] < 0x80 && lower_byte(b1[k + 1]) == lower_byte(b2[k + 1]));
        if k + 2 < b1.len() {
            assert(b1[k + 2] < 0x80 && b2[k + 2] < 0x80);
        }
    }
}

/// The packet a line gives depends only on its digits once the separators are dropped, and
/// not on their letter case: a line whose cleaned digits agree, up to letter case, with those
/// of a line that gives a packet gives the same packet.
pub proof fn lemma_hex_line_digits_decide(l1: Seq<char>, l2: Seq<char>, p: Seq<u8>)
    requires
        hex_line_spec(l1) == Some(Ok::<Option<Seq<u8>>, (bool, Seq<char>)>(Some(p))),
        trim_spec(l2).len() > 0,
        clean_hex_spec(trim_spec(l1)).len() == clean_hex_spec(trim_spec(l2)).len(),
        forall|i: int|
            0 <= i < clean_hex_spec(trim_spec(l1)).len() ==> ascii_lower(
                #[trigger] clean_hex_spec(trim_spec(l1))[i],
            ) == ascii_lower(clean_hex_spec(trim_spec(l2))[i]),
    ensures
        hex_line_spec(l2) == Some(Ok::<Option<Seq<u8>>, (bool, Seq<char>)>(Some(p))),
{
    let c1 = clean_hex_spec(trim_spec(l1));
    let c2 = clean_hex_spec(trim_spec(l2));
    let b1 = encode_utf8(c1);
    let b2 = encode_utf8(c2);
    assert(trim_spec(l1).len() > 0);
    assert(b1.len() % 2 == 0);
    assert(decode_hex_from(b1, 0) == Some(Some(p)));
    lemma_decoded_windows_ascii(b1, 0);
    lemma_ascii_from_bytes(c1);
    assert forall|i: int| 0 <= i < c2.len() implies (#[trigger] c2[i] as u32) < 0x80 by {
        assert(ascii_lower(c1[i]) == ascii_lower(c2[i]));
        assert((c1[i] as u32) < 0x80);
    }
    lemma_encode_ascii(c1);
    lemma_encode_ascii(c2);
    assert forall|j: int| 0 <= j < b1.len() implies #[trigger] b1[j] < 0x80 && b2[j] < 0x80 && lower_byte(b1[j])
        == lower_byte(b2[j]) by {
        assert(ascii_lower(c1[j]) == ascii_lower(c2[j]));
        assert((c1[j] as u32) < 0x80);
        assert((c2[j] as u32) < 0x80);
        assert(b1[j] == (c1[j] as u32) as u8);
        assert(b2[j] == (c2[j] as u32) as u8);
    }
    lemma_windows_up_to_case(b1, b2, 0);
}

/// A UCD2 frame found in raw bytes, in readable form.
#[derive(Debug, Clone)]
pub struct Ucd2Frame {
    pub offset: usize,
    pub frame_hex: String,
    pub version: u8,
    pub header_len: u8,
    pub message_type: String,
    pub message_hint: String,
    pub payload_len: u32,
    pub payload_hex: String,
    pub payload_ascii: String,
    pub payload_strings: Vec<String>,
    pub tail_hex: String,
}

/// What is known of a frame from its group, code and payload length.
pub open spec fn message_hint_spec(group: u8, code: u8, payload_len: u32) -> Seq<char> {
    if group == 0x04 && code == 0xf2 {
        "设备主动通知/状态候选：握手后可能由相机推送"@
    } else if group == 0x04 && code == 0x10 {
        "设备信息请求候选：已观察到返回 04 xx 动态序号响应"@
    } else if group == 0x04 && payload_len >= 40 {
        "设备信息响应候选：04 10 请求后返回；第二字节像会话序号/响应序号 "@ + decimal_spec(code as nat)
            + "；payload 内含序列号/设备名"@
    } else if group == 0x05 && payload_len == 0 {
        "空 payload 会话控制帧候选：已观察到 05 01/03/05..，可能是 ACK、心跳或序号 "@ + decimal_spec(
            code as nat,
        )
    } else {
        "未知 UCD2 帧"@
    }
}

/// What is known of a frame from its group, code and payload length.
pub fn message_hint(group: u8, code: u8, payload_len: u32) -> (r: String)
    ensures
        r@ == message_hint_spec(group, code, payload_len),
{
    if group == 0x04 && code == 0xf2 {
        "设备主动通知/状态候选：握手后可能由相机推送".to_owned()
    } else if group == 0x04 && code == 0x10 {
        "设备信息请求候选：已观察到返回 04 xx 动态序号响应".to_owned()
    } else if group == 0x04 && payload_len >= 40 {
        let mut out: Vec<char> = Vec::new();
        push_str(&mut out, "设备信息响应候选：04 10 请求后返回；第二字节像会话序号/响应序号 ");
        let digits = decimal_chars(code as u64);
        push_chars(&mut out, digits.as_slice());
        push_str(&mut out, "；payload 内含序列号/设备名");
        string_from_chars(out.as_slice())
    } else if group == 0x05 && payload_len == 0 {
        let mut out: Vec<char> = Vec::new();
        push_str(&mut out, "空 payload 会话控制帧候选：已观察到 05 01/03/05..，可能是 ACK、心跳或序号 ");
        let digits = decimal_chars(code as u64);
        push_chars(&mut out, digits.as_slice());
        string_from_chars(out.as_slice())
    } else {
        "未知 UCD2 帧".to_owned()
    }
}

/// Whether a byte is shown as itself: visible ASCII or a space.
pub open spec fn is_printable(b: u8) -> bool {
    0x20 <= b <= 0x7e
}

/// Each byte as its ASCII character when printable, `.` otherwise.
pub open spec fn printable_ascii_spec(bytes: Seq<u8>) -> Seq<char> {
    bytes.map_values(|b: u8| if is_printable(b) {
        b as char
    } else {
        '.'
    })
}

/// The bytes shown as text, unprintable bytes as `.`.
pub fn printable_ascii(bytes: &[u8]) -> (r: String)
    ensures
        r@ == printable_ascii_spec(bytes@),
{
    let n = bytes.len();
    let mut out: Vec<char> = Vec::new();
    let mut i: usize = 0;
    while i < n
        invariant
            n == bytes@.len(),
            i <= n,
            out@ == printable_ascii_spec(bytes@.subrange(0, i as int)),
        decreases n - i,
    {
        let b = bytes[i];
        out.push(if 0x20 <= b && b <= 0x7e {
            b as char
        } else {
            '.'
        });
        i = i + 1;
        assert(out@ =~= printable_ascii_spec(bytes@.subrange(0, i as int)));
    }
    assert(bytes@.subrange(0, n as int) =~= bytes@);
    string_from_chars(out.as_slice())
}

/// The characters of printable bytes.
pub open spec fn ascii_chars(bytes: Seq<u8>) -> Seq<char> {
    bytes.map_values(|b: u8| b as char)
}

/// `strings` with the trimmed run `run` added when the run is at least four bytes long and
/// not blank.
pub open spec fn with_run(strings: Seq<Seq<char>>, run: Seq<u8>) -> Seq<Seq<char>> {
    if run.len() >= 4 && trim_spec(ascii_chars(run)).len() > 0 {
        strings.push(trim_spec(ascii_chars(run)))
    } else {
        strings
    }
}

/// The strings found so far and the printable run being read, after the first `n` bytes.
pub open spec fn strings_scan(bytes: Seq<u8>, n: nat) -> (Seq<Seq<char>>, Seq<u8>)
    decreases n,
{
    if n == 0 || n > bytes.len() {
        (Seq::empty(), Seq::empty())
    } else {
        let (strings, run) = strings_scan(bytes, (n - 1) as nat);
        let b = bytes[n - 1];
        if is_printable(b) {
            (strings, run.push(b))
        } else {
            (with_run(strings, run), Seq::empty())
        }
    }
}

/// The runs of at least four printable bytes, trimmed, leaving out blank ones.
pub open spec fn printable_strings_spec(bytes: Seq<u8>) -> Seq<Seq<char>> {
    let (strings, run) = strings_scan(bytes, bytes.len());
    with_run(strings, run)
}

/// Adds the trimmed run to `strings` when it is long enough and not blank.
fn flush_run(strings: &mut Vec<String>, run: &Vec<u8>)
    ensures
        crate::media::string_views(final(strings)@) == with_run(crate::media::string_views(old(strings)@), run@),
{
    if run.len() >= 4 {
        let mut chars: Vec<char> = Vec::new();
        let n = run.len();
        let mut i: usize = 0;
        while i < n
            invariant
                n == run@.len(),
                i <= n,
                chars@ == ascii_chars(run@.subrange(0, i as int)),
            decreases n - i,
        {
            chars.push(run[i] as char);
            i = i + 1;
            assert(chars@ =~= ascii_chars(run@.subrange(0, i as int)));
        }
        assert(run@.subrange(0, n as int) =~= run@);
        let trimmed = trim_chars(chars.as_slice());
        if trimmed.len() > 0 {
            let ghost before = crate::media::string_views(strings@);
            strings.push(string_from_chars(trimmed.as_slice()));
            assert(crate::media::string_views(strings@) =~= before.push(trimmed@));
        }
    }
}

/// The readable strings in a payload.
pub fn printable_strings(bytes: &[u8]) -> (r: Vec<String>)
    ensures
        crate::media::string_views(r@) == printable_strings_spec(bytes@),
{
    let n = bytes.len();
    let mut strings: Vec<String> = Vec::new();
    let mut run: Vec<u8> = Vec::new();
    let mut i: usize = 0;
    assert(crate::media::string_views(strings@) =~= Seq::<Seq<char>>::empty());
    while i < n
        invariant
            n == bytes@.len(),
            i <= n,
            (crate::media::string_views(strings@), run@) == strings_scan(bytes@, i as nat),
        decreases n - i,
    {
        let b = bytes[i];
        if 0x20 <= b && b <= 0x7e {
            run.push(b);
        } else {
            flush_run(&mut strings, &run);
            run = Vec::new();
        }
        i = i + 1;
    }
    flush_run(&mut strings, &run);
    strings
}

/// The two-digit hex of the group and the code, separated by a space.
pub open spec fn message_type_spec(group: u8, code: u8) -> Seq<char> {
    hex_pair_spec(group) + seq![' '] + hex_pair_spec(code)
}

/// The two hex digits of a byte.
pub open spec fn hex_pair_spec(b: u8) -> Seq<char> {
    seq![hex_digit_char((b / 16) as nat), hex_digit_char((b % 16) as nat)]
}

/// The offsets at which frames are read from `offset` on: at each step the next frame magic,
/// if sixteen bytes from it remain and the declared payload and its four checksum bytes fit.
pub open spec fn frame_offsets_from(b: Seq<u8>, offset: int) -> Seq<int>
    decreases b.len() - offset,
{
    if offset < 0 || offset + 16 > b.len() {
        Seq::empty()
    } else {
        match find_magic(b.subrange(offset, b.len() as int)) {
            None => Seq::empty(),
            Some(rel) => {
                proof {
                    lemma_find_magic_bounds(b.subrange(offset, b.len() as int));
                }
                let o = offset + rel;
                if o + 16 > b.len() {
                    Seq::empty()
                } else {
                    let total = 16 + read_le32(b, o + 8);
                    if o + total > b.len() {
                        Seq::empty()
                    } else {
                        seq![o] + frame_offsets_from(b, o + total)
                    }
                }
            },
        }
    }
}

/// Whether `f` is the readable form of the frame that starts at `o` in `b`.
pub open spec fn is_frame_at(f: Ucd2Frame, b: Seq<u8>, o: int) -> bool {
    let pl = read_le32(b, o + 8);
    &&& f.offset == o
    &&& f.frame_hex@ == hex_spec(b.subrange(o, o + 16 + pl))
    &&& f.version == b[o + 4]
    &&& f.header_len == b[o + 5]
    &&& f.message_type@ == message_type_spec(b[o + 6], b[o + 7])
    &&& f.payload_len == pl
    &&& f.message_hint@ == message_hint_spec(b[o + 6], b[o + 7], pl as u32)
    &&& f.payload_hex@ == hex_spec(b.subrange(o + 12, o + 12 + pl))
    &&& f.payload_ascii@ == printable_ascii_spec(b.subrange(o + 12, o + 12 + pl))
    &&& crate::media::string_views(f.payload_strings@) == printable_strings_spec(b.subrange(o + 12, o + 12 + pl))
    &&& f.tail_hex@ == hex_spec(b.subrange(o + 12 + pl, o + 16 + pl))
}

/// A frame built for a group, a code and a payload is read back as exactly one frame, at offset
/// 0, of version 1 with a twelve-byte header, that group and code, that payload, and the
/// frame's own checksum as its tail.
pub proof fn lemma_built_frame_reads_back(group: u8, code: u8, payload: Seq<u8>)
    requires
        payload.len() <= u32::MAX,
    ensures
        frame_offsets_from(ucd2_frame_spec(group, code, payload), 0) == seq![0int],
        forall|fr: Ucd2Frame|
            #[trigger] is_frame_at(fr, ucd2_frame_spec(group, code, payload), 0) ==> {
                let f = ucd2_frame_spec(group, code, payload);
                let n = payload.len() as int;
                &&& fr.offset == 0
                &&& fr.version == 1
                &&& fr.header_len == 12
                &&& fr.message_type@ == message_type_spec(group, code)
                &&& fr.payload_len == n
                &&& fr.payload_hex@ == hex_spec(payload)
                &&& fr.frame_hex@ == hex_spec(f)
                &&& fr.tail_hex@ == hex_spec(f.subrange(12 + n, 16 + n))
            },
{
    let f = ucd2_frame_spec(group, code, payload);
    let n = payload.len() as int;
    let h = crate::ucd2::ucd2_header(group, code, payload.len());
    crate::ucd2::lemma_le32_roundtrip(payload.len() as u32);
    assert(f.subrange(0, 12) =~= h);
    assert(h.subrange(8, 12) =~= crate::ucd2::le32_bytes(payload.len() as u32));
    assert(f.len() == n + 16);
    assert(f[8] == h[8] && f[9] == h[9] && f[10] == h[10] && f[11] == h[11]);
    assert(read_le32(f, 8) == n);
    assert(f.subrange(0, f.len() as int) =~= f);
    assert(crate::ucd2::magic_at(f, 0));
    assert(find_magic(f.subrange(0, f.len() as int)) == Some(0int));
    assert(frame_offsets_from(f, f.len() as int) =~= Seq::<int>::empty());
    assert(frame_offsets_from(f, 0) =~= seq![0int]);
    assert(f.subrange(12, 12 + n) =~= payload);
    assert(f[4] == 1 && f[5] == 12 && f[6] == group && f[7] == code);
}

/// The UCD2 frames in raw bytes, in readable form: each starts at a frame magic and takes a
/// twelve-byte header, the declared payload and a four-byte checksum; reading stops at the
/// first frame that does not fit.
pub fn parse_ucd2_frames(bytes: &[u8]) -> (r: Vec<Ucd2Frame>)
    ensures
        r@.len() == frame_offsets_from(bytes@, 0).len(),
        forall|i: int| 0 <= i < r@.len() ==> is_frame_at(#[trigger] r@[i], bytes@, frame_offsets_from(bytes@, 0)[i]),
{
    let n = bytes.len();
    let mut frames: Vec<Ucd2Frame> = Vec::new();
    let ghost found: Seq<int> = Seq::empty();
    let mut offset: usize = 0;
    while offset < n && n - offset >= 16
        invariant
            n == bytes@.len(),
            offset <= n,
            frames@.len() == found.len(),
            forall|i: int| 0 <= i < frames@.len() ==> is_frame_at(#[trigger] frames@[i], bytes@, found[i]),
            frame_offsets_from(bytes@, 0) == found + frame_offsets_from(bytes@, offset as int),
        ensures
            frames@.len() == found.len(),
            forall|i: int| 0 <= i < frames@.len() ==> is_frame_at(#[trigger] frames@[i], bytes@, found[i]),
            frame_offsets_from(bytes@, 0) == found + frame_offsets_from(bytes@, offset as int),
            frame_offsets_from(bytes@, offset as int) == Seq::<int>::empty(),
        decreases n - offset,
    {
        proof {
            lemma_find_magic_bounds(bytes@.subrange(offset as int, n as int));
        }
        let o = match find_magic_from(bytes, offset) {
            None => {
                assert(frame_offsets_from(bytes@, offset as int) =~= Seq::<int>::empty());
                break;
            },
            Some(p) => p,
        };
        if n - o < 16 {
            assert(frame_offsets_from(bytes@, offset as int) =~= Seq::<int>::empty());
            break;
        }
        let payload_len = le32_at(bytes, o + 8);
        if payload_len as u64 > (n - o - 16) as u64 {
            assert(frame_offsets_from(bytes@, offset as int) =~= Seq::<int>::empty());
            break;
        }
        let pl = payload_len as usize;
        let end = o + 16 + pl;
        let frame_bytes = copy_range(bytes, o, end);
        let payload = copy_range(bytes, o + 12, o + 12 + pl);
        let tail = copy_range(bytes, o + 12 + pl, end);
        let group = bytes[o + 6];
        let code = bytes[o + 7];
        let mut kind: Vec<char> = Vec::new();
        kind.push(hex_char(group / 16));
        kind.push(hex_char(group % 16));
        kind.push(' ');
        kind.push(hex_char(code / 16));
        kind.push(hex_char(code % 16));
        assert(kind@ =~= message_type_spec(group, code));
        let frame = Ucd2Frame {
            offset: o,
            frame_hex: bytes_to_hex(frame_bytes.as_slice()),
            version: bytes[o + 4],
            header_len: bytes[o + 5],
            message_type: string_from_chars(kind.as_slice()),
            message_hint: message_hint(group, code, payload_len),
            payload_len,
            payload_hex: bytes_to_hex(payload.as_slice()),
            payload_ascii: printable_ascii(payload.as_slice()),
            payload_strings: printable_strings(payload.as_slice()),
            tail_hex: bytes_to_hex(tail.as_slice()),
        };
        proof {
            assert(frame_offsets_from(bytes@, offset as int) == seq![o as int] + frame_offsets_from(bytes@, end as int));
            found = found.push(o as int);
            assert(found.drop_last() + (seq![o as int] + frame_offsets_from(bytes@, end as int)) =~= found
                + frame_offsets_from(bytes@, end as int));
        }
        frames.push(frame);
        offset = end;
    }
    assert(found + Seq::<int>::empty() =~= found);
    frames
}

/// What a probe of the camera's UCD2 port sent and received.
#[derive(Debug, Clone)]
pub struct Ucd2ProbeResult {
    pub host: String,
    pub sent_packets: Vec<String>,
    pub received_packets: Vec<String>,
    pub sent_frames: Vec<Ucd2Frame>,
    pub received_frames: Vec<Ucd2Frame>,
    pub notes: Vec<String>,
}

/// The hex text of the frame that starts at `o` in `b`.
pub open spec fn frame_hex_at(b: Seq<u8>, o: int) -> Seq<char> {
    hex_spec(b.subrange(o, o + 16 + read_le32(b, o + 8)))
}

/// The offsets among `offs` whose frame text has not been seen: neither in `seen` nor among
/// the frames kept before it.
pub open spec fn fresh_offsets(seen: Seq<Seq<char>>, b: Seq<u8>, offs: Seq<int>) -> Seq<int>
    decreases offs.len(),
{
    if offs.len() == 0 {
        Seq::empty()
    } else if seen.contains(frame_hex_at(b, offs[0])) {
        fresh_offsets(seen, b, offs.drop_first())
    } else {
        seq![offs[0]] + fresh_offsets(seen.push(frame_hex_at(b, offs[0])), b, offs.drop_first())
    }
}

/// The frame texts of a list of frames.
pub open spec fn frame_hexes(frames: Seq<Ucd2Frame>) -> Seq<Seq<char>> {
    frames.map_values(|f: Ucd2Frame| f.frame_hex@)
}

/// Whether `frames` from index `start` on are the frames of `b` at the offsets `offs`.
pub open spec fn frames_at_from(frames: Seq<Ucd2Frame>, start: int, b: Seq<u8>, offs: Seq<int>) -> bool {
    &&& frames.len() == start + offs.len()
    &&& forall|i: int| 0 <= i < offs.len() ==> is_frame_at(#[trigger] frames[start + i], b, offs[i])
}

impl Ucd2ProbeResult {
    /// An empty record of a probe of `host`, with its notes.
    pub fn new(host: &str, notes: Vec<String>) -> (r: Self)
        ensures
            r.host@ == host@,
            r.notes@ == notes@,
            r.sent_packets@.len() == 0,
            r.received_packets@.len() == 0,
            r.sent_frames@.len() == 0,
            r.received_frames@.len() == 0,
    {
        Ucd2ProbeResult {
            host: host.to_owned(),
            sent_packets: Vec::new(),
            received_packets: Vec::new(),
            sent_frames: Vec::new(),
            received_frames: Vec::new(),
            notes,
        }
    }

    /// Records a packet that was sent: its hex text and the frames it holds.
    pub fn record_sent(&mut self, packet: &[u8])
        ensures
            crate::media::string_views(final(self).sent_packets@) == crate::media::string_views(
                old(self).sent_packets@,
            ).push(hex_spec(packet@)),
            final(self).sent_frames@.subrange(0, old(self).sent_frames@.len() as int) == old(self).sent_frames@,
            frames_at_from(final(self).sent_frames@, old(self).sent_frames@.len() as int, packet@, frame_offsets_from(packet@, 0)),
            final(self).host == old(self).host,
            final(self).notes == old(self).notes,
            final(self).received_packets == old(self).received_packets,
            final(self).received_frames == old(self).received_frames,
    {
        let hex = bytes_to_hex(packet);
        self.sent_packets.push(hex);
        let parsed = parse_ucd2_frames(packet);
        append_frames(&mut self.sent_frames, parsed);
        proof {
            assert(crate::media::string_views(self.sent_packets@) =~= crate::media::string_views(
                old(self).sent_packets@,
            ).push(hex_spec(packet@)));
        }
    }

    /// Records a chunk that was received: its hex text and the frames it holds.
    pub fn record_received(&mut self, chunk: &[u8])
        ensures
            crate::media::string_views(final(self).received_packets@) == crate::media::string_views(
                old(self).received_packets@,
            ).push(hex_spec(chunk@)),
            final(self).received_frames@.subrange(0, old(self).received_frames@.len() as int)
                == old(self).received_frames@,
            frames_at_from(final(self).received_frames@, old(self).received_frames@.len() as int, chunk@, frame_offsets_from(chunk@, 0)),
            final(self).host == old(self).host,
            final(self).notes == old(self).notes,
            final(self).sent_packets == old(self).sent_packets,
            final(self).sent_frames == old(self).sent_frames,
    {
        let hex = bytes_to_hex(chunk);
        self.received_packets.push(hex);
        let parsed = parse_ucd2_frames(chunk);
        append_frames(&mut self.received_frames, parsed);
        proof {
            assert(crate::media::string_views(self.received_packets@) =~= crate::media::string_views(
                old(self).received_packets@,
            ).push(hex_spec(chunk@)));
        }
    }

    /// Records a chunk received while collecting heartbeats: its hex text, and only the frames
    /// whose text was not received before.
    pub fn record_received_new_frames(&mut self, chunk: &[u8])
        ensures
            crate::media::string_views(final(self).received_packets@) == crate::media::string_views(
                old(self).received_packets@,
            ).push(hex_spec(chunk@)),
            final(self).received_frames@.subrange(0, old(self).received_frames@.len() as int)
                == old(self).received_frames@,
            frames_at_from(
                final(self).received_frames@,
                old(self).received_frames@.len() as int,
                chunk@,
                fresh_offsets(frame_hexes(old(self).received_frames@), chunk@, frame_offsets_from(chunk@, 0)),
            ),
            final(self).host == old(self).host,
            final(self).notes == old(self).notes,
            final(self).sent_packets == old(self).sent_packets,
            final(self).sent_frames == old(self).sent_frames,
    {
        let hex = bytes_to_hex(chunk);
        self.received_packets.push(hex);
        proof {
            assert(crate::media::string_views(self.received_packets@) =~= crate::media::string_views(
                old(self).received_packets@,
            ).push(hex_spec(chunk@)));
        }
        let mut parsed = parse_ucd2_frames(chunk);
        let ghost offs = frame_offsets_from(chunk@, 0);
        let ghost start = self.received_frames@.len() as int;
        let ghost seen0 = frame_hexes(self.received_frames@);
        let ghost kept: Seq<int> = Seq::empty();
        let ghost k: int = 0;
        let ghost old_frames = self.received_frames@;
        assert(offs.subrange(0, offs.len() as int) =~= offs);
        while parsed.len() > 0
            invariant
                k + parsed@.len() == offs.len(),
                0 <= k <= offs.len(),
                forall|i: int| 0 <= i < parsed@.len() ==> is_frame_at(#[trigger] parsed@[i], chunk@, offs[k + i]),
                self.received_frames@.subrange(0, start) == old_frames,
                self.received_frames@.len() == start + kept.len(),
                forall|i: int| 0 <= i < kept.len() ==> is_frame_at(#[trigger] self.received_frames@[start + i], chunk@, kept[i]),
                frame_hexes(self.received_frames@) == seen0 + kept.map_values(|o: int| frame_hex_at(chunk@, o)),
                fresh_offsets(seen0, chunk@, offs) == kept + fresh_offsets(
                    frame_hexes(self.received_frames@),
                    chunk@,
                    offs.subrange(k, offs.len() as int),
                ),
                seen0 == frame_hexes(old_frames),
                start == old_frames.len(),
                self.host == old(self).host,
                self.notes == old(self).notes,
                self.sent_packets == old(self).sent_packets,
                self.sent_frames == old(self).sent_frames,
                crate::media::string_views(self.received_packets@) == crate::media::string_views(
                    old(self).received_packets@,
                ).push(hex_spec(chunk@)),
            decreases parsed@.len(),
        {
            let frame = parsed.remove(0);
            let ghost o = offs[k];
            let ghost rest = offs.subrange(k, offs.len() as int);
            assert(rest[0] == o);
            assert(rest.drop_first() =~= offs.subrange(k + 1, offs.len() as int));
            assert(frame.frame_hex@ == frame_hex_at(chunk@, o));
            let ghost seen = frame_hexes(self.received_frames@);
            let mut found = false;
            let mut j: usize = 0;
            let m = self.received_frames.len();
            while j < m
                invariant
                    m == self.received_frames@.len(),
                    j <= m,
                    seen == frame_hexes(self.received_frames@),
                    found <==> exists|x: int| 0 <= x < j && seen[x] == frame.frame_hex@,
                decreases m - j,
            {
                assert(seen[j as int] == self.received_frames@[j as int].frame_hex@);
                if crate::text::str_eq(self.received_frames[j].frame_hex.as_str(), frame.frame_hex.as_str()) {
                    found = true;
                }
                assert(found <==> exists|x: int| 0 <= x < j + 1 && seen[x] == frame.frame_hex@) by {
                    if exists|x: int| 0 <= x < j + 1 && seen[x] == frame.frame_hex@ {
                        let x = choose|x: int| 0 <= x < j + 1 && seen[x] == frame.frame_hex@;
                        if x < j {
                            assert(exists|y: int| 0 <= y < j && seen[y] == frame.frame_hex@);
                        }
                    }
                }
                j = j + 1;
            }
            assert(found <==> seen.contains(frame_hex_at(chunk@, o))) by {
                if seen.contains(frame_hex_at(chunk@, o)) {
                    let x = choose|x: int| 0 <= x < seen.len() && seen[x] == frame_hex_at(chunk@, o);
                    assert(0 <= x < m && seen[x] == frame.frame_hex@);
                }
            }
            if !found {
                let ghost before = self.received_frames@;
                self.received_frames.push(frame);
                proof {
                    assert(self.received_frames@.subrange(0, start) =~= before.subrange(0, start));
                    assert forall|i: int| 0 <= i < kept.len() + 1 implies is_frame_at(
                        #[trigger] self.received_frames@[start + i],
                        chunk@,
                        kept.push(o)[i],
                    ) by {
                        if i < kept.len() {
                            assert(self.received_frames@[start + i] == before[start + i]);
                        }
                    }
                    assert(frame_hexes(self.received_frames@) =~= frame_hexes(before).push(frame_hex_at(chunk@, o)));
                    assert(kept.push(o).map_values(|q: int| frame_hex_at(chunk@, q)) =~= kept.map_values(
                        |q: int| frame_hex_at(chunk@, q),
                    ).push(frame_hex_at(chunk@, o)));
                    assert(kept + (seq![o] + fresh_offsets(seen.push(frame_hex_at(chunk@, o)), chunk@, rest.drop_first()))
                        =~= kept.push(o) + fresh_offsets(seen.push(frame_hex_at(chunk@, o)), chunk@, rest.drop_first()));
                    kept = kept.push(o);
                }
            }
            proof {
                k = k + 1;
            }
        }
        assert(offs.subrange(k, offs.len() as int) =~= Seq::<int>::empty());
        assert(kept + Seq::<int>::empty() =~= kept);
    }
}

/// Moves the frames of `more` to the end of `frames`.
fn append_frames(frames: &mut Vec<Ucd2Frame>, more: Vec<Ucd2Frame>)
    ensures
        final(frames)@ == old(frames)@ + more@,
{
    let mut more = more;
    let ghost all = old(frames)@ + more@;
    let ghost taken: int = 0;
    let ghost src = more@;
    while more.len() > 0
        invariant
            frames@ + more@ == all,
            all == old(frames)@ + src,
        decreases more@.len(),
    {
        let f = more.remove(0);
        let ghost before_frames = frames@;
        let ghost before_more = more@;
        frames.push(f);
        assert(frames@ + more@ =~= all) by {
            assert(before_frames + (seq![f] + more@) =~= all);
        }
    }
    assert(frames@ + Seq::<Ucd2Frame>::empty() =~= frames@);
}

} // verus!
