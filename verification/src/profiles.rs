//! The summaries of the device profiles shipped with the app: which name each device is shown
//! under, and which of its lists hold text.
use vstd::prelude::*;

verus! {

/// What the profile page shows of one device.
#[derive(Debug, Clone, Default)]
pub struct DeviceProfileSummary {
    pub id: String,
    pub display_name: String,
    pub short_name: String,
    pub server_name: Option<String>,
    pub series: Option<String>,
    pub variety: Option<String>,
    pub channels: Vec<String>,
    pub capture_modes: Vec<String>,
    pub lens_modes: Vec<String>,
}

/// An optional text as characters.
pub open spec fn opt_view(s: Option<String>) -> Option<Seq<char>> {
    match s {
        Some(v) => Some(v@),
        None => None,
    }
}

/// The texts of a list, in order, leaving out the entries that are no text (`None`).
pub open spec fn texts_only(items: Seq<Option<String>>) -> Seq<Seq<char>>
    decreases items.len(),
{
    if items.len() == 0 {
        Seq::empty()
    } else {
        let prev = texts_only(items.drop_last());
        match items.last() {
            Some(s) => prev.push(s@),
            None => prev,
        }
    }
}

/// The texts of a list, leaving out the entries that are no text.
pub fn strings_only(items: Vec<Option<String>>) -> (r: Vec<String>)
    ensures
        r@.map_values(|s: String| s@) == texts_only(items@),
{
    let n = items.len();
    let mut out: Vec<String> = Vec::new();
    let mut i: usize = 0;
    while i < n
        invariant
            n == items@.len(),
            i <= n,
            out@.map_values(|s: String| s@) == texts_only(items@.subrange(0, i as int)),
        decreases n - i,
    {
        let ghost prefix = items@.subrange(0, i + 1);
        assert(prefix.drop_last() =~= items@.subrange(0, i as int));
        match &items[i] {
            Some(s) => {
                out.push(s.clone());
                assert(out@.map_values(|s: String| s@) =~= texts_only(items@.subrange(0, i as int)).push(s@));
            },
            None => {},
        }
        i = i + 1;
    }
    assert(items@.subrange(0, n as int) =~= items@);
    out
}

/// The summary of the profile `id`, from the texts its `basic` block holds (display name,
/// device type, short display name, server name, series, variety) and its lists (connection
/// channels, capture modes, lens modes; entries that are no text given as `None`). The display
/// name falls back on the device type and then on the id; the short name on the id.
pub fn profile_summary(
    id: String,
    display_name: Option<String>,
    device_type: Option<String>,
    short_display_name: Option<String>,
    server_name: Option<String>,
    series: Option<String>,
    variety: Option<String>,
    channels: Vec<Option<String>>,
    capture_modes: Vec<Option<String>>,
    lens_modes: Vec<Option<String>>,
) -> (r: DeviceProfileSummary)
    ensures
        r.id@ == id@,
        r.display_name@ == (match opt_view(display_name) {
            Some(d) => d,
            None => match opt_view(device_type) {
                Some(t) => t,
                None => id@,
            },
        }),
        r.short_name@ == (match opt_view(short_display_name) {
            Some(s) => s,
            None => id@,
        }),
        opt_view(r.server_name) == opt_view(server_name),
        opt_view(r.series) == opt_view(series),
        opt_view(r.variety) == opt_view(variety),
        r.channels@.map_values(|s: String| s@) == texts_only(channels@),
        r.capture_modes@.map_values(|s: String| s@) == texts_only(capture_modes@),
        r.lens_modes@.map_values(|s: String| s@) == texts_only(lens_modes@),
{
    let shown = match display_name {
        Some(d) => d,
        None => match device_type {
            Some(t) => t,
            None => id.clone(),
        },
    };
    let short_name = match short_display_name {
        Some(s) => s,
        None => id.clone(),
    };
    DeviceProfileSummary {
        id,
        display_name: shown,
        short_name,
        server_name,
        series,
        variety,
        channels: strings_only(channels),
        capture_modes: strings_only(capture_modes),
        lens_modes: strings_only(lens_modes),
    }
}

} // verus!
