//! The Wi-Fi list shown by the toolbar: SSID decoding, the best access point
//! per SSID, one row per SSID, and the order of the rows.
use vstd::prelude::*;
use vstd::utf8::{decode_utf8, valid_utf8};

use crate::network::profile::{
    band_from_center_freq_khz, calculate_network_score, is_enterprise_auth_alg, quality_in_range,
    spec_band, spec_is_enterprise_auth_alg, spec_network_score,
};
use crate::text::{chars_of, eq_chars, string_of, trim, trim_chars};
use crate::whitelist::{
    first_index, lemma_first_index_bounds, lemma_first_index_is, lemma_first_index_none,
};

verus! {

// ---------------------------------------------------------------------------
// SSID bytes
// ---------------------------------------------------------------------------
/// What `encoding_rs::GBK.decode` yields for a byte string (its BOM sniffing
/// and the GBK tables are not written out).
pub uninterp spec fn gbk_decoded(bytes: Seq<u8>) -> Seq<char>;

/// Calls `encoding_rs::GBK.decode`; the text is named by `gbk_decoded`.
/// The length bound keeps the crate's output-buffer size computation from
/// overflowing, where it panics.
#[verifier::external_body]
pub(crate) fn decode_gbk(bytes: &[u8]) -> (r: String)
    requires
        bytes.len() <= 0x0fff_ffff,
    ensures
        r@ == gbk_decoded(bytes@),
{
    let (text, _encoding, _had_errors) = encoding_rs::GBK.decode(bytes);
    text.into_owned()
}

/// Calls `std::str::from_utf8`: the text when the bytes are valid UTF-8.
#[verifier::external_body]
pub(crate) fn str_from_utf8(bytes: &[u8]) -> (r: Option<&str>)
    ensures
        r is Some <==> valid_utf8(bytes@),
        r matches Some(s) ==> s@ == decode_utf8(bytes@),
{
    std::str::from_utf8(bytes).ok()
}

/// Bytes as text: UTF-8 when valid, else GBK (common on Chinese routers).
pub open spec fn utf8_or_gbk(bytes: Seq<u8>) -> Seq<char> {
    if valid_utf8(bytes) {
        decode_utf8(bytes)
    } else {
        gbk_decoded(bytes)
    }
}

/// An SSID of `len` bytes (at most the 32 stored) as trimmed text.
pub open spec fn ssid_text(len: u32, bytes: Seq<u8>) -> Seq<char> {
    let n = if len < 32 {
        len as int
    } else {
        32
    };
    trim(utf8_or_gbk(bytes.take(n)))
}

pub fn ssid_to_string(len: u32, bytes: &[u8; 32]) -> (r: String)
    ensures
        r@ == ssid_text(len, bytes@),
{
    let n: usize = if len < 32 {
        len as usize
    } else {
        32
    };
    let mut taken: Vec<u8> = Vec::new();
    let mut i: usize = 0;
    while i < n
        invariant
            n <= 32,
            i <= n,
            bytes@.len() == 32,
            taken@ == bytes@.take(i as int),
        decreases n - i,
    {
        taken.push(bytes[i]);
        i = i + 1;
        assert(taken@ =~= bytes@.take(i as int));
    }
    let text = match str_from_utf8(taken.as_slice()) {
        Some(s) => chars_of(s),
        None => {
            let g = decode_gbk(taken.as_slice());
            chars_of(g.as_str())
        },
    };
    let t = trim_chars(text.as_slice());
    string_of(t.as_slice())
}

// ---------------------------------------------------------------------------
// Access points
// ---------------------------------------------------------------------------
/// One access point of a scan.
pub struct BssEntry {
    pub ssid_len: u32,
    pub ssid_bytes: [u8; 32],
    pub link_quality: u32,
    pub rssi: i32,
    pub center_freq_khz: u32,
}

/// The access point kept for an SSID.
pub struct BssPick {
    pub ssid: Seq<char>,
    pub link_quality: u32,
    pub rssi: i32,
    pub band: Seq<char>,
}

pub open spec fn bss_ssid(e: BssEntry) -> Seq<char> {
    ssid_text(e.ssid_len, e.ssid_bytes@)
}

/// Score of an access point alone (security and connection unknown).
pub open spec fn base_score(link_quality: u32, band: Seq<char>, rssi: i32) -> int {
    spec_network_score(link_quality, band, false, rssi, false)
}

/// A new access point wins over the kept one by a higher base score, or an
/// equal one with a stronger link.
pub open spec fn bss_wins(kept: BssPick, e: BssEntry) -> bool {
    let s = base_score(e.link_quality, spec_band(e.center_freq_khz), e.rssi);
    let k = base_score(kept.link_quality, kept.band, kept.rssi);
    s > k || (s == k && e.link_quality > kept.link_quality)
}

/// What an SSID starts with before any access point is weighed.
pub open spec fn bss_initial(ssid: Seq<char>) -> BssPick {
    BssPick { ssid, link_quality: 0, rssi: i32::MIN, band: "unknown"@ }
}

pub open spec fn bss_pick_of(e: BssEntry) -> BssPick {
    BssPick {
        ssid: bss_ssid(e),
        link_quality: e.link_quality,
        rssi: e.rssi,
        band: spec_band(e.center_freq_khz),
    }
}

pub open spec fn pick_has_ssid(ssid: Seq<char>) -> spec_fn(BssPick) -> bool {
    |p: BssPick| p.ssid == ssid
}

/// The table after weighing one more access point.
pub open spec fn bss_step(t: Seq<BssPick>, e: BssEntry) -> Seq<BssPick> {
    let ssid = bss_ssid(e);
    if ssid.len() == 0 {
        t
    } else {
        match first_index(t, pick_has_ssid(ssid)) {
            Some(k) => if bss_wins(t[k], e) {
                t.update(k, bss_pick_of(e))
            } else {
                t
            },
            None => if bss_wins(bss_initial(ssid), e) {
                t.push(bss_pick_of(e))
            } else {
                t.push(bss_initial(ssid))
            },
        }
    }
}

/// The best access point of each non-empty SSID, SSIDs in order of first
/// appearance.
pub open spec fn bss_table(entries: Seq<BssEntry>) -> Seq<BssPick>
    decreases entries.len(),
{
    if entries.len() == 0 {
        seq![]
    } else {
        bss_step(bss_table(entries.drop_last()), entries.last())
    }
}

/// Executable form of a kept access point.
pub struct BssKept {
    pub ssid: Vec<char>,
    pub link_quality: u32,
    pub rssi: i32,
    pub band: &'static str,
}

impl View for BssKept {
    type V = BssPick;

    open spec fn view(&self) -> BssPick {
        BssPick {
            ssid: self.ssid@,
            link_quality: self.link_quality,
            rssi: self.rssi,
            band: self.band@,
        }
    }
}

pub open spec fn kept_views(t: Seq<BssKept>) -> Seq<BssPick> {
    t.map_values(|k: BssKept| k@)
}

pub open spec fn bss_qualities_in_range(entries: Seq<BssEntry>) -> bool {
    forall|i: int| 0 <= i < entries.len() ==> quality_in_range(#[trigger] entries[i].link_quality)
}

pub open spec fn picks_in_range(t: Seq<BssPick>) -> bool {
    forall|i: int| 0 <= i < t.len() ==> quality_in_range(#[trigger] t[i].link_quality)
}

proof fn lemma_bss_table_in_range(entries: Seq<BssEntry>)
    requires
        bss_qualities_in_range(entries),
    ensures
        picks_in_range(bss_table(entries)),
    decreases entries.len(),
{
    if entries.len() > 0 {
        let init = entries.drop_last();
        assert(bss_qualities_in_range(init)) by {
            assert forall|i: int| 0 <= i < init.len() implies quality_in_range(
                #[trigger] init[i].link_quality,
            ) by {
                assert(init[i] == entries[i]);
            }
        }
        lemma_bss_table_in_range(init);
        let t = bss_table(init);
        let e = entries.last();
        assert(quality_in_range(e.link_quality));
        let r = bss_step(t, e);
        lemma_first_index_bounds(t, pick_has_ssid(bss_ssid(e)));
        assert(picks_in_range(r)) by {
            if bss_ssid(e).len() > 0 {
                match first_index(t, pick_has_ssid(bss_ssid(e))) {
                    Some(k) => {
                        assert forall|i: int| 0 <= i < r.len() implies quality_in_range(
                            #[trigger] r[i].link_quality,
                        ) by {
                            if i != k {
                                assert(r[i] == t[i]);
                            }
                        }
                    },
                    None => {
                        assert forall|i: int| 0 <= i < r.len() implies quality_in_range(
                            #[trigger] r[i].link_quality,
                        ) by {
                            if i < t.len() {
                                assert(r[i] == t[i]);
                            }
                        }
                    },
                }
            }
        }
    }
}

fn position_of_ssid(t: &Vec<BssKept>, ssid: &[char]) -> (r: Option<usize>)
    ensures
        match first_index(kept_views(t@), pick_has_ssid(ssid@)) {
            Some(k) => r == Some(k as usize) && 0 <= k < t.len(),
            None => r is None,
        },
{
    let ghost v = kept_views(t@);
    proof {
        lemma_first_index_bounds(v, pick_has_ssid(ssid@));
    }
    let mut i: usize = 0;
    while i < t.len()
        invariant
            i <= t.len(),
            v == kept_views(t@),
            forall|j: int| 0 <= j < i ==> !(#[trigger] pick_has_ssid(ssid@))(v[j]),
        decreases t.len() - i,
    {
        if eq_chars(t[i].ssid.as_slice(), ssid) {
            proof {
                lemma_first_index_is(v, pick_has_ssid(ssid@), i as int);
            }
            return Some(i);
        }
        i = i + 1;
    }
    proof {
        lemma_first_index_none(v, pick_has_ssid(ssid@));
    }
    None
}

fn bss_wins_exec(kept: &BssKept, e: &BssEntry, band: &'static str) -> (r: bool)
    requires
        quality_in_range(kept.link_quality),
        quality_in_range(e.link_quality),
        band@ == spec_band(e.center_freq_khz),
    ensures
        r == bss_wins(kept@, *e),
{
    let s = calculate_network_score(e.link_quality, band, false, e.rssi, false);
    let k = calculate_network_score(kept.link_quality, kept.band, false, kept.rssi, false);
    s > k || (s == k && e.link_quality > kept.link_quality)
}

fn bss_step_exec(t: &mut Vec<BssKept>, e: &BssEntry)
    requires
        picks_in_range(kept_views(old(t)@)),
        quality_in_range(e.link_quality),
    ensures
        kept_views(final(t)@) == bss_step(kept_views(old(t)@), *e),
{
    let ssid_s = ssid_to_string(e.ssid_len, &e.ssid_bytes);
    let ssid = chars_of(ssid_s.as_str());
    let band = band_from_center_freq_khz(e.center_freq_khz);
    if ssid.len() == 0 {
        return;
    }
    match position_of_ssid(t, ssid.as_slice()) {
        Some(k) => {
            proof {
                assert(kept_views(t@)[k as int] == t@[k as int]@);
                assert(quality_in_range(kept_views(t@)[k as int].link_quality));
            }
            if bss_wins_exec(&t[k], e, band) {
                let pick = BssKept { ssid, link_quality: e.link_quality, rssi: e.rssi, band };
                let ghost old_t = t@;
                t.set(k, pick);
                proof {
                    assert(kept_views(t@) =~= kept_views(old_t).update(k as int, bss_pick_of(*e)));
                }
            }
        },
        None => {
            let init = BssKept { ssid: ssid.clone(), link_quality: 0, rssi: i32::MIN, band: "unknown" };
            proof {
                reveal_strlit("unknown");
                assert(init@ == bss_initial(ssid@));
            }
            let ghost old_t = t@;
            if bss_wins_exec(&init, e, band) {
                t.push(BssKept { ssid, link_quality: e.link_quality, rssi: e.rssi, band });
                proof {
                    assert(kept_views(t@) =~= kept_views(old_t).push(bss_pick_of(*e)));
                }
            } else {
                t.push(init);
                proof {
                    assert(kept_views(t@) =~= kept_views(old_t).push(bss_initial(ssid@)));
                }
            }
        },
    }
}

proof fn lemma_take_in_range(entries: Seq<BssEntry>, i: int)
    requires
        bss_qualities_in_range(entries),
        0 <= i <= entries.len(),
    ensures
        bss_qualities_in_range(entries.take(i)),
{
    assert forall|j: int| 0 <= j < i implies quality_in_range(
        #[trigger] entries.take(i)[j].link_quality,
    ) by {
        assert(entries.take(i)[j] == entries[j]);
    }
}

/// The best access point per SSID.
pub fn best_access_points(entries: &[BssEntry]) -> (r: Vec<BssKept>)
    requires
        bss_qualities_in_range(entries@),
    ensures
        kept_views(r@) == bss_table(entries@),
{
    let mut t: Vec<BssKept> = Vec::new();
    let mut i: usize = 0;
    while i < entries.len()
        invariant
            i <= entries.len(),
            bss_qualities_in_range(entries@),
            kept_views(t@) == bss_table(entries@.take(i as int)),
        decreases entries.len() - i,
    {
        proof {
            assert(entries@.take(i + 1).drop_last() == entries@.take(i as int));
            assert(entries@.take(i + 1).last() == entries@[i as int]);
            lemma_take_in_range(entries@, i as int);
            lemma_bss_table_in_range(entries@.take(i as int));
            assert(quality_in_range(entries@[i as int].link_quality));
        }
        bss_step_exec(&mut t, &entries[i]);
        i = i + 1;
    }
    assert(entries@.take(entries.len() as int) == entries@);
    t
}

// ---------------------------------------------------------------------------
// One row per SSID
// ---------------------------------------------------------------------------
/// The security label shown for a network.
#[derive(Clone, Copy, Debug, PartialEq, Eq, Structural)]
pub enum WifiSecurity {
    Open,
    Secured,
    Enterprise,
    Unknown,
}

pub open spec fn security_label(s: WifiSecurity) -> Seq<char> {
    match s {
        WifiSecurity::Open => "open"@,
        WifiSecurity::Secured => "secured"@,
        WifiSecurity::Enterprise => "enterprise"@,
        WifiSecurity::Unknown => "unknown"@,
    }
}

impl WifiSecurity {
    /// The label: `open`, `secured`, `enterprise` or `unknown`.
    pub fn as_str(&self) -> (r: &'static str)
        ensures
            r@ == security_label(*self),
    {
        match self {
            WifiSecurity::Open => "open",
            WifiSecurity::Secured => "secured",
            WifiSecurity::Enterprise => "enterprise",
            WifiSecurity::Unknown => "unknown",
        }
    }
}

/// A network as the toolbar lists it.
#[derive(Clone, Debug)]
pub struct WifiNetwork {
    pub ssid: String,
    pub signal: u32,
    pub security: WifiSecurity,
    pub connected: bool,
}

pub struct NetRow {
    pub ssid: Seq<char>,
    pub signal: u32,
    pub security: WifiSecurity,
    pub connected: bool,
}

impl View for WifiNetwork {
    type V = NetRow;

    open spec fn view(&self) -> NetRow {
        NetRow {
            ssid: self.ssid@,
            signal: self.signal,
            security: self.security,
            connected: self.connected,
        }
    }
}

fn copy_network(n: &WifiNetwork) -> (r: WifiNetwork)
    ensures
        r@ == n@,
{
    let ssid_chars = chars_of(n.ssid.as_str());
    WifiNetwork {
        ssid: string_of(ssid_chars.as_slice()),
        signal: n.signal,
        security: n.security,
        connected: n.connected,
    }
}

/// One entry of the available-network list of an interface.
pub struct AvailableNetwork {
    pub ssid_len: u32,
    pub ssid_bytes: [u8; 32],
    pub signal_quality: u32,
    pub security_enabled: bool,
    pub default_auth_algorithm: u32,
    pub flagged_connected: bool,
}

/// The interface's current connection: SSID, signal and whether it is
/// secured.
pub struct CurrentConnection {
    pub ssid: String,
    pub signal: u32,
    pub secured: bool,
}

pub struct CurrentView {
    pub ssid: Seq<char>,
    pub signal: u32,
    pub secured: bool,
}

impl View for CurrentConnection {
    type V = CurrentView;

    open spec fn view(&self) -> CurrentView {
        CurrentView { ssid: self.ssid@, signal: self.signal, secured: self.secured }
    }
}

pub open spec fn current_view(c: Option<CurrentConnection>) -> Option<CurrentView> {
    match c {
        Some(c) => Some(c@),
        None => None,
    }
}

/// The kept access point of an SSID, or none.
pub open spec fn bss_lookup(t: Seq<BssPick>, ssid: Seq<char>) -> BssPick {
    match first_index(t, pick_has_ssid(ssid)) {
        Some(k) => t[k],
        None => bss_initial(ssid),
    }
}

/// Whether a listed network is the connected one: the current connection
/// decides when it is known, else the list's own flag.
pub open spec fn avail_connected(n: AvailableNetwork, cur: Option<CurrentView>) -> bool {
    match cur {
        Some(c) => ssid_text(n.ssid_len, n.ssid_bytes@) == c.ssid,
        None => n.flagged_connected,
    }
}

/// Security is on when the list says so, or when this is the current
/// connection and that is secured.
pub open spec fn avail_secured(n: AvailableNetwork, cur: Option<CurrentView>) -> bool {
    n.security_enabled || (match cur {
        Some(c) => ssid_text(n.ssid_len, n.ssid_bytes@) == c.ssid && c.secured,
        None => false,
    })
}

pub open spec fn avail_security(n: AvailableNetwork, cur: Option<CurrentView>) -> WifiSecurity {
    if !avail_secured(n, cur) {
        WifiSecurity::Open
    } else if spec_is_enterprise_auth_alg(n.default_auth_algorithm) {
        WifiSecurity::Enterprise
    } else {
        WifiSecurity::Secured
    }
}

/// The row of one listed network with its score: the signal is the better of
/// the list's and the best access point's, which also gives band and RSSI.
pub open spec fn avail_row(t: Seq<BssPick>, n: AvailableNetwork, cur: Option<CurrentView>) -> (
    int,
    NetRow,
) {
    let ssid = ssid_text(n.ssid_len, n.ssid_bytes@);
    let ap = bss_lookup(t, ssid);
    let signal = if n.signal_quality >= ap.link_quality {
        n.signal_quality
    } else {
        ap.link_quality
    };
    let connected = avail_connected(n, cur);
    (
        spec_network_score(signal, ap.band, avail_secured(n, cur), ap.rssi, connected),
        NetRow { ssid, signal, security: avail_security(n, cur), connected },
    )
}

/// Two rows of one SSID merged: connected if either is, the stronger
/// security and signal, and the higher score.
pub open spec fn merge_rows(best: (int, NetRow), entry: (int, NetRow)) -> (int, NetRow) {
    let connected = best.1.connected || entry.1.connected;
    let security = if entry.1.security == WifiSecurity::Enterprise {
        WifiSecurity::Enterprise
    } else if best.1.security == WifiSecurity::Open && entry.1.security == WifiSecurity::Secured {
        WifiSecurity::Secured
    } else {
        best.1.security
    };
    let signal = if best.1.signal >= entry.1.signal {
        best.1.signal
    } else {
        entry.1.signal
    };
    let replace = (entry.1.connected && !connected) || entry.0 > best.0 || (entry.0 == best.0
        && entry.1.signal > signal);
    if replace {
        (
            entry.0,
            NetRow {
                ssid: entry.1.ssid,
                signal: if entry.1.signal >= signal {
                    entry.1.signal
                } else {
                    signal
                },
                security: if security == WifiSecurity::Enterprise || entry.1.security
                    == WifiSecurity::Enterprise {
                    WifiSecurity::Enterprise
                } else if security == WifiSecurity::Secured || entry.1.security
                    == WifiSecurity::Secured {
                    WifiSecurity::Secured
                } else {
                    entry.1.security
                },
                connected,
            },
        )
    } else {
        (best.0, NetRow { ssid: best.1.ssid, signal, security, connected })
    }
}

pub open spec fn row_has_ssid(ssid: Seq<char>) -> spec_fn((int, NetRow)) -> bool {
    |p: (int, NetRow)| p.1.ssid == ssid
}

/// The rows after one more listed network.
pub open spec fn group_step(g: Seq<(int, NetRow)>, row: (int, NetRow)) -> Seq<(int, NetRow)> {
    if row.1.ssid.len() == 0 {
        g
    } else {
        match first_index(g, row_has_ssid(row.1.ssid)) {
            Some(k) => g.update(k, merge_rows(g[k], row)),
            None => g.push(row),
        }
    }
}

/// One scored row per non-empty SSID, in order of first appearance.
#[verifier::opaque]
pub open spec fn group_available(
    t: Seq<BssPick>,
    avail: Seq<AvailableNetwork>,
    cur: Option<CurrentView>,
) -> Seq<(int, NetRow)>
    decreases avail.len(),
{
    if avail.len() == 0 {
        seq![]
    } else {
        group_step(group_available(t, avail.drop_last(), cur), avail_row(t, avail.last(), cur))
    }
}

pub open spec fn scored_views(v: Seq<(i32, WifiNetwork)>) -> Seq<(int, NetRow)> {
    v.map_values(|p: (i32, WifiNetwork)| (p.0 as int, p.1@))
}

pub open spec fn avail_in_range(avail: Seq<AvailableNetwork>) -> bool {
    forall|i: int| 0 <= i < avail.len() ==> quality_in_range(#[trigger] avail[i].signal_quality)
}

fn lookup_access_point(t: &Vec<BssKept>, ssid: &[char]) -> (r: (u32, i32, &'static str))
    ensures
        ({
            let ap = bss_lookup(kept_views(t@), ssid@);
            r.0 == ap.link_quality && r.1 == ap.rssi && r.2@ == ap.band
        }),
{
    proof {
        lemma_first_index_bounds(kept_views(t@), pick_has_ssid(ssid@));
    }
    match position_of_ssid(t, ssid) {
        Some(k) => {
            assert(kept_views(t@)[k as int] == t@[k as int]@);
            (t[k].link_quality, t[k].rssi, t[k].band)
        },
        None => {
            proof {
                reveal_strlit("unknown");
            }
            (0, i32::MIN, "unknown")
        },
    }
}

fn available_row(t: &Vec<BssKept>, n: &AvailableNetwork, cur: &Option<CurrentConnection>) -> (r: (
    i32,
    WifiNetwork,
))
    requires
        picks_in_range(kept_views(t@)),
        quality_in_range(n.signal_quality),
    ensures
        (r.0 as int, r.1@) == avail_row(kept_views(t@), *n, current_view(*cur)),
{
    let ssid_s = ssid_to_string(n.ssid_len, &n.ssid_bytes);
    let ssid = chars_of(ssid_s.as_str());
    let mut secured = n.security_enabled;
    let connected = match cur {
        Some(c) => {
            let cs = chars_of(c.ssid.as_str());
            if eq_chars(ssid.as_slice(), cs.as_slice()) {
                secured = secured || c.secured;
                true
            } else {
                false
            }
        },
        None => n.flagged_connected,
    };
    let enterprise = secured && is_enterprise_auth_alg(n.default_auth_algorithm);
    let security = if !secured {
        WifiSecurity::Open
    } else if enterprise {
        WifiSecurity::Enterprise
    } else {
        WifiSecurity::Secured
    };
    let ap = lookup_access_point(t, ssid.as_slice());
    proof {
        lemma_first_index_bounds(kept_views(t@), pick_has_ssid(ssid@));
        let v = kept_views(t@);
        match first_index(v, pick_has_ssid(ssid@)) {
            Some(k) => {
                assert(quality_in_range(v[k].link_quality));
            },
            None => {},
        }
    }
    let signal = if n.signal_quality >= ap.0 {
        n.signal_quality
    } else {
        ap.0
    };
    let score = calculate_network_score(signal, ap.2, secured, ap.1, connected);
    (score, WifiNetwork { ssid: ssid_s, signal, security, connected })
}

fn merge_rows_exec(best: &(i32, WifiNetwork), entry: &(i32, WifiNetwork)) -> (r: (i32, WifiNetwork))
    ensures
        (r.0 as int, r.1@) == merge_rows((best.0 as int, best.1@), (entry.0 as int, entry.1@)),
{
    let b = &best.1;
    let e = &entry.1;
    let connected = b.connected || e.connected;
    let security = if e.security == WifiSecurity::Enterprise {
        WifiSecurity::Enterprise
    } else if b.security == WifiSecurity::Open && e.security == WifiSecurity::Secured {
        WifiSecurity::Secured
    } else {
        b.security
    };
    let signal = if b.signal >= e.signal {
        b.signal
    } else {
        e.signal
    };
    let replace = (e.connected && !connected) || entry.0 > best.0 || (entry.0 == best.0
        && e.signal > signal);
    if replace {
        let merged_security = if security == WifiSecurity::Enterprise || e.security
            == WifiSecurity::Enterprise {
            WifiSecurity::Enterprise
        } else if security == WifiSecurity::Secured || e.security == WifiSecurity::Secured {
            WifiSecurity::Secured
        } else {
            e.security
        };
        let n = copy_network(e);
        (
            entry.0,
            WifiNetwork {
                ssid: n.ssid,
                signal: if e.signal >= signal {
                    e.signal
                } else {
                    signal
                },
                security: merged_security,
                connected,
            },
        )
    } else {
        let n = copy_network(b);
        (best.0, WifiNetwork { ssid: n.ssid, signal, security, connected })
    }
}

fn position_of_row(g: &Vec<(i32, WifiNetwork)>, ssid: &str) -> (r: Option<usize>)
    ensures
        match first_index(scored_views(g@), row_has_ssid(ssid@)) {
            Some(k) => r == Some(k as usize) && 0 <= k < g.len(),
            None => r is None,
        },
{
    let ghost v = scored_views(g@);
    proof {
        lemma_first_index_bounds(v, row_has_ssid(ssid@));
    }
    let mut i: usize = 0;
    while i < g.len()
        invariant
            i <= g.len(),
            v == scored_views(g@),
            forall|j: int| 0 <= j < i ==> !(#[trigger] row_has_ssid(ssid@))(v[j]),
        decreases g.len() - i,
    {
        if crate::text::eq_str(g[i].1.ssid.as_str(), ssid) {
            proof {
                lemma_first_index_is(v, row_has_ssid(ssid@), i as int);
            }
            return Some(i);
        }
        i = i + 1;
    }
    proof {
        lemma_first_index_none(v, row_has_ssid(ssid@));
    }
    None
}

fn group_step_exec(g: &mut Vec<(i32, WifiNetwork)>, row: (i32, WifiNetwork))
    ensures
        scored_views(final(g)@) == group_step(scored_views(old(g)@), (row.0 as int, row.1@)),
{
    let ssid_chars = chars_of(row.1.ssid.as_str());
    if ssid_chars.len() == 0 {
        return;
    }
    match position_of_row(g, row.1.ssid.as_str()) {
        Some(k) => {
            let merged = merge_rows_exec(&g[k], &row);
            let ghost old_g = g@;
            proof {
                assert(scored_views(old_g)[k as int] == (old_g[k as int].0 as int, old_g[k as int].1@));
            }
            g.set(k, merged);
            proof {
                assert(scored_views(g@) =~= scored_views(old_g).update(
                    k as int,
                    merge_rows(scored_views(old_g)[k as int], (row.0 as int, row.1@)),
                ));
            }
        },
        None => {
            let ghost old_g = g@;
            let ghost rv = (row.0 as int, row.1@);
            g.push(row);
            proof {
                assert(scored_views(g@) =~= scored_views(old_g).push(rv));
            }
        },
    }
}

proof fn lemma_group_prefix(
    t: Seq<BssPick>,
    avail: Seq<AvailableNetwork>,
    cur: Option<CurrentView>,
    i: int,
)
    requires
        0 <= i < avail.len(),
    ensures
        group_available(t, avail.take(i + 1), cur) == group_step(
            group_available(t, avail.take(i), cur),
            avail_row(t, avail[i], cur),
        ),
{
    reveal(group_available);
    assert(avail.take(i + 1).drop_last() == avail.take(i));
    assert(avail.take(i + 1).last() == avail[i]);
}

/// One scored row per SSID of the available list, SSIDs in order of first
/// appearance.
#[verifier::rlimit(40)]
pub fn group_available_networks(
    table: &Vec<BssKept>,
    avail: &[AvailableNetwork],
    current: &Option<CurrentConnection>,
) -> (r: Vec<(i32, WifiNetwork)>)
    requires
        picks_in_range(kept_views(table@)),
        avail_in_range(avail@),
    ensures
        scored_views(r@) == group_available(kept_views(table@), avail@, current_view(*current)),
{
    let ghost t = kept_views(table@);
    let ghost cur = current_view(*current);
    let mut g: Vec<(i32, WifiNetwork)> = Vec::new();
    proof {
        reveal(group_available);
        assert(scored_views(g@) =~= group_available(t, avail@.take(0), cur));
    }
    let mut i: usize = 0;
    while i < avail.len()
        invariant
            i <= avail.len(),
            t == kept_views(table@),
            cur == current_view(*current),
            picks_in_range(t),
            avail_in_range(avail@),
            scored_views(g@) == group_available(t, avail@.take(i as int), cur),
        decreases avail.len() - i,
    {
        proof {
            lemma_group_prefix(t, avail@, cur, i as int);
            assert(quality_in_range(avail@[i as int].signal_quality));
        }
        let row = available_row(table, &avail[i], current);
        group_step_exec(&mut g, row);
        i = i + 1;
    }
    assert(avail@.take(avail.len() as int) == avail@);
    g
}

// ---------------------------------------------------------------------------
// Order of the rows
// ---------------------------------------------------------------------------
/// Lexicographic order of character sequences (that of `String`, since
/// UTF-8 keeps the order of code points).
pub open spec fn seq_lt(a: Seq<char>, b: Seq<char>) -> bool
    decreases a.len(),
{
    if a.len() == 0 {
        b.len() > 0
    } else if b.len() == 0 {
        false
    } else if a[0] != b[0] {
        a[0] < b[0]
    } else {
        seq_lt(a.drop_first(), b.drop_first())
    }
}

proof fn lemma_seq_lt_skip(a: Seq<char>, b: Seq<char>, i: int)
    requires
        0 <= i <= a.len(),
        i <= b.len(),
        a.take(i) == b.take(i),
    ensures
        seq_lt(a, b) == seq_lt(a.skip(i), b.skip(i)),
    decreases i,
{
    if i > 0 {
        assert(a[0] == a.take(i)[0]);
        assert(b[0] == b.take(i)[0]);
        assert(a.drop_first().take(i - 1) =~= a.take(i).drop_first());
        assert(b.drop_first().take(i - 1) =~= b.take(i).drop_first());
        lemma_seq_lt_skip(a.drop_first(), b.drop_first(), i - 1);
        assert(a.drop_first().skip(i - 1) =~= a.skip(i));
        assert(b.drop_first().skip(i - 1) =~= b.skip(i));
    } else {
        assert(a.skip(0) =~= a);
        assert(b.skip(0) =~= b);
    }
}

/// Any two different character sequences are ordered one way.
pub proof fn lemma_seq_lt_total(a: Seq<char>, b: Seq<char>)
    ensures
        a != b ==> seq_lt(a, b) || seq_lt(b, a),
        !seq_lt(a, a),
    decreases a.len(),
{
    if a.len() > 0 && b.len() > 0 && a[0] == b[0] {
        lemma_seq_lt_total(a.drop_first(), b.drop_first());
        if a.drop_first() == b.drop_first() {
            assert(a =~= seq![a[0]] + a.drop_first());
            assert(b =~= seq![b[0]] + b.drop_first());
        }
    } else if a.len() > 0 {
        lemma_seq_lt_total(a.drop_first(), a.drop_first());
        if b.len() > 0 {
            assert(a[0] < b[0] || b[0] < a[0]);
        }
    }
    if a.len() == 0 && b.len() == 0 {
        assert(a =~= b);
    }
}

/// The order of character sequences is transitive.
pub proof fn lemma_seq_lt_trans(a: Seq<char>, b: Seq<char>, c: Seq<char>)
    requires
        seq_lt(a, b),
        seq_lt(b, c),
    ensures
        seq_lt(a, c),
    decreases a.len(),
{
    if a.len() > 0 && a[0] == b[0] && b[0] == c[0] {
        lemma_seq_lt_trans(a.drop_first(), b.drop_first(), c.drop_first());
    }
}

pub fn str_less(a: &str, b: &str) -> (r: bool)
    ensures
        r == seq_lt(a@, b@),
{
    let x = chars_of(a);
    let y = chars_of(b);
    let mut i: usize = 0;
    while i < x.len() && i < y.len()
        invariant
            i <= x.len(),
            i <= y.len(),
            x@ == a@,
            y@ == b@,
            x@.take(i as int) == y@.take(i as int),
        decreases x.len() - i,
    {
        if x[i] != y[i] {
            proof {
                lemma_seq_lt_skip(x@, y@, i as int);
                assert(x@.skip(i as int)[0] == x@[i as int]);
                assert(y@.skip(i as int)[0] == y@[i as int]);
            }
            return x[i] < y[i];
        }
        assert(x@.take(i + 1) == x@.take(i as int).push(x@[i as int]));
        assert(y@.take(i + 1) == y@.take(i as int).push(y@[i as int]));
        i = i + 1;
    }
    proof {
        lemma_seq_lt_skip(x@, y@, i as int);
    }
    i == x.len() && i < y.len()
}

/// Whether row `a` is listed before row `b`: connected first, then higher
/// score, stronger signal, and SSID in lexicographic order.
pub open spec fn row_before(a: (int, NetRow), b: (int, NetRow)) -> bool {
    if a.1.connected && !b.1.connected {
        true
    } else if !a.1.connected && b.1.connected {
        false
    } else {
        a.0 > b.0 || (a.0 == b.0 && (a.1.signal > b.1.signal || (a.1.signal == b.1.signal
            && seq_lt(a.1.ssid, b.1.ssid))))
    }
}

pub open spec fn placed_before(x: (int, NetRow)) -> spec_fn((int, NetRow)) -> bool {
    |y: (int, NetRow)| row_before(x, y)
}

/// Where `x` goes in `s`: before the first row it precedes.
pub open spec fn insert_position(s: Seq<(int, NetRow)>, x: (int, NetRow)) -> int {
    match first_index(s, placed_before(x)) {
        Some(i) => i,
        None => s.len() as int,
    }
}

/// Insertion sort by `row_before`.
pub open spec fn sort_rows(g: Seq<(int, NetRow)>) -> Seq<(int, NetRow)>
    decreases g.len(),
{
    if g.len() == 0 {
        seq![]
    } else {
        let s = sort_rows(g.drop_last());
        s.insert(insert_position(s, g.last()), g.last())
    }
}

proof fn lemma_sort_rows_len(g: Seq<(int, NetRow)>)
    ensures
        sort_rows(g).len() == g.len(),
    decreases g.len(),
{
    if g.len() > 0 {
        lemma_sort_rows_len(g.drop_last());
        let s = sort_rows(g.drop_last());
        lemma_first_index_bounds(s, placed_before(g.last()));
    }
}

fn row_before_exec(a: &(i32, WifiNetwork), b: &(i32, WifiNetwork)) -> (r: bool)
    ensures
        r == row_before((a.0 as int, a.1@), (b.0 as int, b.1@)),
{
    if a.1.connected && !b.1.connected {
        true
    } else if !a.1.connected && b.1.connected {
        false
    } else {
        a.0 > b.0 || (a.0 == b.0 && (a.1.signal > b.1.signal || (a.1.signal == b.1.signal
            && str_less(a.1.ssid.as_str(), b.1.ssid.as_str()))))
    }
}

fn insert_position_exec(s: &Vec<(i32, WifiNetwork)>, x: &(i32, WifiNetwork)) -> (r: usize)
    ensures
        r as int == insert_position(scored_views(s@), (x.0 as int, x.1@)),
        r <= s.len(),
{
    let ghost v = scored_views(s@);
    let ghost xv = (x.0 as int, x.1@);
    let mut i: usize = 0;
    while i < s.len()
        invariant
            i <= s.len(),
            v == scored_views(s@),
            xv == (x.0 as int, x.1@),
            forall|j: int| 0 <= j < i ==> !(#[trigger] placed_before(xv))(v[j]),
        decreases s.len() - i,
    {
        if row_before_exec(x, &s[i]) {
            proof {
                assert(v[i as int] == (s@[i as int].0 as int, s@[i as int].1@));
                lemma_first_index_is(v, placed_before(xv), i as int);
            }
            return i;
        }
        assert(v[i as int] == (s@[i as int].0 as int, s@[i as int].1@));
        i = i + 1;
    }
    proof {
        lemma_first_index_none(v, placed_before(xv));
    }
    i
}

/// The rows in listing order.
pub fn sort_networks(g: &Vec<(i32, WifiNetwork)>) -> (r: Vec<(i32, WifiNetwork)>)
    ensures
        scored_views(r@) == sort_rows(scored_views(g@)),
{
    let ghost gv = scored_views(g@);
    let mut out: Vec<(i32, WifiNetwork)> = Vec::new();
    let mut i: usize = 0;
    while i < g.len()
        invariant
            i <= g.len(),
            gv == scored_views(g@),
            scored_views(out@) == sort_rows(gv.take(i as int)),
        decreases g.len() - i,
    {
        let x = (g[i].0, copy_network(&g[i].1));
        proof {
            assert(gv[i as int] == (g@[i as int].0 as int, g@[i as int].1@));
            assert(gv.take(i + 1).drop_last() == gv.take(i as int));
            assert(gv.take(i + 1).last() == gv[i as int]);
        }
        let pos = insert_position_exec(&out, &x);
        let ghost old_out = out@;
        out.insert(pos, x);
        proof {
            assert(scored_views(out@) =~= scored_views(old_out).insert(pos as int, gv[i as int]));
        }
        i = i + 1;
    }
    assert(gv.take(g.len() as int) == gv);
    out
}

// ---------------------------------------------------------------------------
// The listed networks
// ---------------------------------------------------------------------------
pub open spec fn network_views(v: Seq<WifiNetwork>) -> Seq<NetRow> {
    v.map_values(|n: WifiNetwork| n@)
}

pub open spec fn rows_of(s: Seq<(int, NetRow)>) -> Seq<NetRow> {
    s.map_values(|p: (int, NetRow)| p.1)
}

/// The row of the current connection when the list lacks it.
pub open spec fn current_row(c: CurrentView) -> NetRow {
    NetRow {
        ssid: c.ssid,
        signal: c.signal,
        security: if c.secured {
            WifiSecurity::Secured
        } else {
            WifiSecurity::Open
        },
        connected: true,
    }
}

pub open spec fn lists_connected(s: Seq<NetRow>, ssid: Seq<char>) -> bool {
    exists|i: int| 0 <= i < s.len() && (#[trigger] s[i]).connected && s[i].ssid == ssid
}

/// The list with the current connection in front when no connected row
/// carries its SSID.
pub open spec fn with_current(s: Seq<NetRow>, cur: Option<CurrentView>) -> Seq<NetRow> {
    match cur {
        Some(c) => if lists_connected(s, c.ssid) {
            s
        } else {
            seq![current_row(c)] + s
        },
        None => s,
    }
}

/// The toolbar's Wi-Fi list from a scan: one row per SSID, in listing order,
/// with the current connection always present.
pub open spec fn wlan_network_list(
    bss: Seq<BssEntry>,
    avail: Seq<AvailableNetwork>,
    cur: Option<CurrentView>,
) -> Seq<NetRow> {
    with_current(rows_of(sort_rows(group_available(bss_table(bss), avail, cur))), cur)
}

pub fn add_current_connection(list: Vec<WifiNetwork>, current: &Option<CurrentConnection>) -> (r:
    Vec<WifiNetwork>)
    ensures
        network_views(r@) == with_current(network_views(list@), current_view(*current)),
{
    match current {
        Some(c) => {
            let ghost v = network_views(list@);
            let mut i: usize = 0;
            let mut has = false;
            while i < list.len()
                invariant
                    i <= list.len(),
                    v == network_views(list@),
                    has == exists|j: int| 0 <= j < i && (#[trigger] v[j]).connected && v[j].ssid == c.ssid@,
                decreases list.len() - i,
            {
                let hit = list[i].connected && crate::text::eq_str(list[i].ssid.as_str(), c.ssid.as_str());
                proof {
                    assert(v[i as int] == list@[i as int]@);
                }
                has = has || hit;
                i = i + 1;
            }
            if has {
                list
            } else {
                let cs = chars_of(c.ssid.as_str());
                let row = WifiNetwork {
                    ssid: string_of(cs.as_slice()),
                    signal: c.signal,
                    security: if c.secured {
                        WifiSecurity::Secured
                    } else {
                        WifiSecurity::Open
                    },
                    connected: true,
                };
                let mut out: Vec<WifiNetwork> = Vec::new();
                out.push(row);
                let mut rest = list;
                let ghost rv = network_views(rest@);
                out.append(&mut rest);
                proof {
                    assert(network_views(out@) =~= seq![current_row(c@)] + rv);
                }
                out
            }
        },
        None => list,
    }
}

fn strip_scores(s: Vec<(i32, WifiNetwork)>) -> (r: Vec<WifiNetwork>)
    ensures
        network_views(r@) == rows_of(scored_views(s@)),
{
    let mut out: Vec<WifiNetwork> = Vec::new();
    let mut i: usize = 0;
    while i < s.len()
        invariant
            i <= s.len(),
            out.len() == i,
            network_views(out@) == rows_of(scored_views(s@)).take(i as int),
        decreases s.len() - i,
    {
        let n = copy_network(&s[i].1);
        let ghost before = out@;
        out.push(n);
        proof {
            assert(scored_views(s@)[i as int] == (s@[i as int].0 as int, s@[i as int].1@));
            assert(rows_of(scored_views(s@))[i as int] == s@[i as int].1@);
            assert(network_views(out@) =~= network_views(before).push(s@[i as int].1@));
            assert(network_views(out@) =~= rows_of(scored_views(s@)).take(i + 1));
        }
        i = i + 1;
    }
    assert(rows_of(scored_views(s@)).take(s.len() as int) =~= rows_of(scored_views(s@)));
    out
}

/// The Wi-Fi list from a scan's access points, the available-network list
/// and the current connection.
pub fn assemble_wlan_networks(
    bss: &[BssEntry],
    avail: &[AvailableNetwork],
    current: &Option<CurrentConnection>,
) -> (r: Vec<WifiNetwork>)
    requires
        bss_qualities_in_range(bss@),
        avail_in_range(avail@),
    ensures
        network_views(r@) == wlan_network_list(bss@, avail@, current_view(*current)),
{
    let table = best_access_points(bss);
    proof {
        lemma_bss_table_in_range(bss@);
    }
    let grouped = group_available_networks(&table, avail, current);
    let sorted = sort_networks(&grouped);
    let list = strip_scores(sorted);
    add_current_connection(list, current)
}

// ---------------------------------------------------------------------------
// Laws of the list
// ---------------------------------------------------------------------------
/// Merging two rows of one SSID keeps the higher score and the stronger
/// signal, and the merged row is connected when either was.
pub proof fn lemma_merge_keeps_best(best: (int, NetRow), entry: (int, NetRow))
    ensures
        ({
            let m = merge_rows(best, entry);
            &&& m.0 == if entry.0 > best.0 {
                entry.0
            } else {
                best.0
            }
            &&& m.1.signal == if entry.1.signal > best.1.signal {
                entry.1.signal
            } else {
                best.1.signal
            }
            &&& m.1.connected == (best.1.connected || entry.1.connected)
        }),
{
}

/// Sorting neither loses nor adds a row.
pub proof fn lemma_sort_rows_permutes(g: Seq<(int, NetRow)>)
    ensures
        sort_rows(g).to_multiset() == g.to_multiset(),
    decreases g.len(),
{
    broadcast use vstd::seq_lib::group_to_multiset_ensures;

    if g.len() > 0 {
        lemma_sort_rows_permutes(g.drop_last());
        let s = sort_rows(g.drop_last());
        lemma_first_index_bounds(s, placed_before(g.last()));
        vstd::seq_lib::to_multiset_insert(s, insert_position(s, g.last()), g.last());
        assert(g =~= g.drop_last().push(g.last()));
        vstd::seq_lib::to_multiset_build(g.drop_last(), g.last());
    }
}

/// `a` may come before `b` in the listing: connected rows first, among
/// rows equally connected the higher score first, and among equal scores the
/// stronger signal first.
pub open spec fn listed_no_later(a: (int, NetRow), b: (int, NetRow)) -> bool {
    (a.1.connected && !b.1.connected) || (a.1.connected == b.1.connected && (a.0 > b.0 || (a.0
        == b.0 && a.1.signal >= b.1.signal)))
}

/// The rows are in listing order.
pub open spec fn in_listing_order(s: Seq<(int, NetRow)>) -> bool {
    forall|i: int, j: int| 0 <= i < j < s.len() ==> listed_no_later(#[trigger] s[i], #[trigger] s[j])
}

proof fn lemma_insert_keeps_listing_order(s: Seq<(int, NetRow)>, x: (int, NetRow))
    requires
        in_listing_order(s),
    ensures
        in_listing_order(s.insert(insert_position(s, x), x)),
{
    let p = insert_position(s, x);
    lemma_first_index_bounds(s, placed_before(x));
    assert(0 <= p <= s.len());
    let n = s.insert(p, x);
    s.insert_ensures(p, x);
    // Rows before the insertion point do not follow `x`; the row at it does.
    assert forall|k: int| 0 <= k < p implies listed_no_later(s[k], x) by {
        assert(!placed_before(x)(s[k]));
    }
    if p < s.len() {
        assert(placed_before(x)(s[p]));
        assert(listed_no_later(x, s[p]));
    }
    assert forall|i: int, j: int| 0 <= i < j < n.len() implies listed_no_later(
        #[trigger] n[i],
        #[trigger] n[j],
    ) by {
        if j < p {
            assert(n[i] == s[i] && n[j] == s[j]);
        } else if j == p {
            assert(n[i] == s[i] && n[j] == x);
        } else if i < p {
            assert(n[i] == s[i] && n[j] == s[j - 1]);
        } else if i == p {
            assert(n[i] == x && n[j] == s[j - 1]);
            assert(listed_no_later(x, s[p]));
            if j - 1 > p {
                assert(listed_no_later(s[p], s[j - 1]));
            }
        } else {
            assert(n[i] == s[i - 1] && n[j] == s[j - 1]);
        }
    }
}

/// The sorted Wi-Fi rows list every connected row before every unconnected
/// one, among rows equally connected a higher score never follows a lower
/// one, and among equal scores a stronger signal never follows a weaker one.
pub proof fn lemma_sort_rows_in_listing_order(g: Seq<(int, NetRow)>)
    ensures
        in_listing_order(sort_rows(g)),
    decreases g.len(),
{
    if g.len() > 0 {
        lemma_sort_rows_in_listing_order(g.drop_last());
        lemma_insert_keeps_listing_order(sort_rows(g.drop_last()), g.last());
    }
}

/// Whenever the interface reports a current connection, the list shows a
/// connected row with its SSID.
pub proof fn lemma_current_connection_listed(
    bss: Seq<BssEntry>,
    avail: Seq<AvailableNetwork>,
    cur: CurrentView,
)
    ensures
        lists_connected(wlan_network_list(bss, avail, Some(cur)), cur.ssid),
{
    let s = rows_of(sort_rows(group_available(bss_table(bss), avail, Some(cur))));
    if !lists_connected(s, cur.ssid) {
        let r = seq![current_row(cur)] + s;
        assert(r[0] == current_row(cur));
    }
}

/// Each row of a list names its own non-empty SSID.
pub open spec fn one_row_per_ssid(g: Seq<(int, NetRow)>) -> bool {
    &&& forall|i: int, j: int| 0 <= i < j < g.len() ==> g[i].1.ssid != g[j].1.ssid
    &&& forall|i: int| 0 <= i < g.len() ==> g[i].1.ssid.len() > 0
}

/// Some row of the list has this SSID.
pub open spec fn lists_ssid(g: Seq<(int, NetRow)>, ssid: Seq<char>) -> bool {
    exists|k: int| 0 <= k < g.len() && g[k].1.ssid == ssid
}

proof fn lemma_group_step_rows(g: Seq<(int, NetRow)>, row: (int, NetRow))
    requires
        one_row_per_ssid(g),
    ensures
        one_row_per_ssid(group_step(g, row)),
        forall|ssid: Seq<char>| lists_ssid(g, ssid) ==> lists_ssid(group_step(g, row), ssid),
        row.1.ssid.len() > 0 ==> lists_ssid(group_step(g, row), row.1.ssid),
{
    let s = group_step(g, row);
    if row.1.ssid.len() > 0 {
        lemma_first_index_bounds(g, row_has_ssid(row.1.ssid));
        match first_index(g, row_has_ssid(row.1.ssid)) {
            Some(k) => {
                assert(s[k].1.ssid == g[k].1.ssid);
                assert forall|i: int| 0 <= i < s.len() implies s[i].1.ssid == g[i].1.ssid by {}
                assert forall|ssid: Seq<char>| lists_ssid(g, ssid) implies lists_ssid(s, ssid) by {
                    let m = choose|m: int| 0 <= m < g.len() && g[m].1.ssid == ssid;
                    assert(s[m].1.ssid == ssid);
                }
                assert(s[k].1.ssid == row.1.ssid);
            },
            None => {
                assert forall|i: int| 0 <= i < g.len() implies g[i].1.ssid != row.1.ssid by {
                    if g[i].1.ssid == row.1.ssid {
                        assert(row_has_ssid(row.1.ssid)(g[i]));
                    }
                }
                assert forall|ssid: Seq<char>| lists_ssid(g, ssid) implies lists_ssid(s, ssid) by {
                    let m = choose|m: int| 0 <= m < g.len() && g[m].1.ssid == ssid;
                    assert(s[m] == g[m]);
                }
                assert(s[g.len() as int] == row);
            },
        }
    }
}

proof fn lemma_group_last(t: Seq<BssPick>, avail: Seq<AvailableNetwork>, cur: Option<CurrentView>)
    requires
        avail.len() > 0,
    ensures
        group_available(t, avail, cur) == group_step(
            group_available(t, avail.drop_last(), cur),
            avail_row(t, avail.last(), cur),
        ),
{
    reveal(group_available);
}

/// The grouped list has one row per non-empty SSID of the available list:
/// no SSID twice, none empty, and none of the listed ones missing.
pub proof fn lemma_group_one_row_per_ssid(
    t: Seq<BssPick>,
    avail: Seq<AvailableNetwork>,
    cur: Option<CurrentView>,
)
    ensures
        one_row_per_ssid(group_available(t, avail, cur)),
        forall|i: int|
            0 <= i < avail.len() && ssid_text(
                (#[trigger] avail[i]).ssid_len,
                avail[i].ssid_bytes@,
            ).len() > 0 ==> lists_ssid(
                group_available(t, avail, cur),
                ssid_text(avail[i].ssid_len, avail[i].ssid_bytes@),
            ),
    decreases avail.len(),
{
    if avail.len() == 0 {
        reveal(group_available);
    } else {
        let prev = avail.drop_last();
        lemma_group_one_row_per_ssid(t, prev, cur);
        let g = group_available(t, prev, cur);
        let last = avail.last();
        let row = avail_row(t, last, cur);
        assert(row.1.ssid == ssid_text(last.ssid_len, last.ssid_bytes@));
        lemma_group_last(t, avail, cur);
        lemma_group_step_rows(g, row);
        assert forall|i: int|
            0 <= i < avail.len() && ssid_text(
                (#[trigger] avail[i]).ssid_len,
                avail[i].ssid_bytes@,
            ).len() > 0 implies lists_ssid(
            group_available(t, avail, cur),
            ssid_text(avail[i].ssid_len, avail[i].ssid_bytes@),
        ) by {
            if i < avail.len() - 1 {
                assert(avail[i] == prev[i]);
            }
        }
    }
}

/// Sorting keeps one row per SSID: every sorted row is a row of the input,
/// so no SSID comes twice and none is empty.
#[verifier::rlimit(40)]
pub proof fn lemma_sort_keeps_one_row_per_ssid(g: Seq<(int, NetRow)>)
    ensures
        forall|k: int|
            0 <= k < sort_rows(g).len() ==> exists|m: int|
                0 <= m < g.len() && g[m] == #[trigger] sort_rows(g)[k],
        one_row_per_ssid(g) ==> one_row_per_ssid(sort_rows(g)),
    decreases g.len(),
{
    lemma_sort_rows_len(g);
    if g.len() > 0 {
        let prev = g.drop_last();
        let x = g.last();
        lemma_sort_keeps_one_row_per_ssid(prev);
        lemma_sort_rows_len(prev);
        let s = sort_rows(prev);
        let p = insert_position(s, x);
        lemma_first_index_bounds(s, placed_before(x));
        assert(0 <= p <= s.len());
        let r = s.insert(p, x);
        assert(sort_rows(g) == r);
        assert forall|k: int| 0 <= k < r.len() implies exists|m: int|
            0 <= m < g.len() && g[m] == #[trigger] r[k] by {
            if k < p {
                assert(r[k] == s[k]);
                let m = choose|m: int| 0 <= m < prev.len() && prev[m] == s[k];
                assert(g[m] == prev[m]);
            } else if k == p {
                assert(g[g.len() - 1] == r[k]);
            } else {
                assert(r[k] == s[k - 1]);
                let m = choose|m: int| 0 <= m < prev.len() && prev[m] == s[k - 1];
                assert(g[m] == prev[m]);
            }
        }
        if one_row_per_ssid(g) {
            assert(one_row_per_ssid(prev)) by {
                assert forall|i: int, j: int| 0 <= i < j < prev.len() implies prev[i].1.ssid
                    != prev[j].1.ssid by {
                    assert(prev[i] == g[i] && prev[j] == g[j]);
                }
                assert forall|i: int| 0 <= i < prev.len() implies prev[i].1.ssid.len() > 0 by {
                    assert(prev[i] == g[i]);
                }
            }
            assert forall|k: int| 0 <= k < s.len() implies s[k].1.ssid != x.1.ssid by {
                let m = choose|m: int| 0 <= m < prev.len() && prev[m] == s[k];
                assert(prev[m] == g[m]);
            }
            assert forall|i: int, j: int| 0 <= i < j < r.len() implies r[i].1.ssid
                != r[j].1.ssid by {
                if j < p {
                    assert(r[i] == s[i] && r[j] == s[j]);
                } else if j == p {
                    assert(r[i] == s[i]);
                } else if i < p {
                    assert(r[i] == s[i] && r[j] == s[j - 1]);
                } else if i == p {
                    assert(r[j] == s[j - 1]);
                } else {
                    assert(r[i] == s[i - 1] && r[j] == s[j - 1]);
                }
            }
            assert forall|k: int| 0 <= k < r.len() implies r[k].1.ssid.len() > 0 by {
                let m = choose|m: int| 0 <= m < g.len() && g[m] == r[k];
            }
        }
    }
}

} // verus!
