//! The text of `netsh wlan show networks` and `netsh wlan show interfaces`:
//! decoding the bytes, the lines it reads, and the rows it yields.
use vstd::prelude::*;

use crate::network::wifi::{decode_gbk, str_from_utf8, utf8_or_gbk, NetRow, WifiNetwork, WifiSecurity, network_views};
use crate::text::{ascii_lower, chars_of, contains, contains_chars, eq_chars, has_char, index_of, index_of_exec, lines_of, lines_vec, lower_vec, parse_unsigned, parse_unsigned_exec, slice_vec, string_of, trim, trim_chars, trim_start, trim_start_chars, views, starts_with, starts_with_chars};
use crate::whitelist::{first_index, lemma_first_index_bounds, lemma_first_index_is, lemma_first_index_none};

verus! {

// ---------------------------------------------------------------------------
// Line shapes
// ---------------------------------------------------------------------------
pub open spec fn is_colon(c: char) -> bool {
    c == ':' || c == '：'
}

pub open spec fn is_percent(c: char) -> bool {
    c == '%' || c == '％'
}

/// A character matching a lowercase ASCII letter without regard to case, as
/// Unicode simple case folding has it (`ſ` folds to `s`).
pub open spec fn folds_to(c: char, w: char) -> bool {
    c == w || (c as u32) + 32 == (w as u32) || (w == 's' && c == '\u{17f}')
}

/// `s` starts with the ASCII word `w` up to case.
pub open spec fn starts_with_word(s: Seq<char>, w: Seq<char>) -> bool {
    w.len() <= s.len() && forall|i: int| 0 <= i < w.len() ==> folds_to(#[trigger] s[i], w[i])
}

/// Number of leading ASCII digits.
pub open spec fn lead_digits(s: Seq<char>) -> nat
    decreases s.len(),
{
    if s.len() > 0 && '0' <= s[0] && s[0] <= '9' {
        1 + lead_digits(s.drop_first())
    } else {
        0
    }
}

/// What follows a label: blanks, a colon (`:` or `：`), then at least one
/// character; the rest after the colon.
pub open spec fn after_colon(s: Seq<char>) -> Option<Seq<char>> {
    let t = trim_start(s);
    if t.len() > 1 && is_colon(t[0]) {
        Some(t.skip(1))
    } else {
        None
    }
}

/// The rest of a line after one of two labels (ASCII word up to case, or
/// a literal), or none.
pub open spec fn after_label(line: Seq<char>, word: Seq<char>, alt: Seq<char>) -> Option<
    Seq<char>,
> {
    let a = trim_start(line);
    if starts_with_word(a, word) {
        Some(a.skip(word.len() as int))
    } else if starts_with(a, alt) {
        Some(a.skip(alt.len() as int))
    } else {
        None
    }
}

/// `SSID <n> : <value>`: the trimmed value.
pub open spec fn ssid_value(line: Seq<char>, numbered: bool) -> Option<Seq<char>> {
    let a = trim_start(line);
    if !starts_with_word(a, "ssid"@) {
        None
    } else {
        let b = trim_start(a.skip(4));
        let c = if numbered {
            trim_start(b.skip(lead_digits(b) as int))
        } else {
            b
        };
        match after_colon(c) {
            Some(rest) => Some(trim(rest)),
            None => None,
        }
    }
}

/// `<label> : <value>`: the trimmed value.
pub open spec fn labelled_value(line: Seq<char>, word: Seq<char>, alt: Seq<char>) -> Option<
    Seq<char>,
> {
    match after_label(line, word, alt) {
        Some(rest) => match after_colon(rest) {
            Some(v) => Some(trim(v)),
            None => None,
        },
        None => None,
    }
}

/// `Signal : <digits> %` (or `信号`, `％`): the digits.
pub open spec fn signal_digits(line: Seq<char>) -> Option<Seq<char>> {
    match after_label(line, "signal"@, "信号"@) {
        Some(rest) => {
            let c = trim_start(rest);
            if c.len() > 0 && is_colon(c[0]) {
                let d = trim_start(c.skip(1));
                let n = lead_digits(d);
                let e = trim_start(d.skip(n as int));
                if n > 0 && e.len() > 0 && is_percent(e[0]) && trim_start(e.skip(1)).len() == 0 {
                    Some(d.take(n as int))
                } else {
                    None
                }
            } else {
                None
            }
        },
        None => None,
    }
}

/// A line that names a percentage after some colon.
pub open spec fn has_percent_and_colon(line: Seq<char>) -> bool {
    (line.contains('%') || line.contains('％')) && (line.contains(':') || line.contains('：'))
}

/// The digits after the first `:` of such a line (its leading blanks
/// skipped).
pub open spec fn digits_after_colon(line: Seq<char>) -> Seq<char> {
    match index_of(line, ':') {
        Some(i) => {
            let rest = trim_start(line.skip(i + 1));
            rest.take(lead_digits(rest) as int)
        },
        None => seq![],
    }
}

/// A percentage line whose only colon is the full-width one: slicing the
/// line's bytes one past that colon cuts the character, which the listing
/// reader cannot do.
pub open spec fn fullwidth_colon_only(line: Seq<char>) -> bool {
    has_percent_and_colon(line) && !line.contains(':')
}

pub open spec fn parse_u32(s: Seq<char>) -> Option<u32> {
    match parse_unsigned(s, 10, u32::MAX as nat) {
        Some(v) => Some(v as u32),
        None => None,
    }
}

// ---------------------------------------------------------------------------
// Executable line shapes
// ---------------------------------------------------------------------------
fn folds_to_exec(c: char, w: char) -> (r: bool)
    requires
        'a' <= w <= 'z',
    ensures
        r == folds_to(c, w),
{
    c == w || (c as u32) + 32 == (w as u32) || (w == 's' && c == '\u{17f}')
}

fn starts_with_word_exec(s: &[char], w: &str) -> (r: bool)
    requires
        forall|i: int| 0 <= i < w@.len() ==> 'a' <= #[trigger] w@[i] <= 'z',
    ensures
        r == starts_with_word(s@, w@),
{
    let wc = chars_of(w);
    if wc.len() > s.len() {
        return false;
    }
    let mut i: usize = 0;
    while i < wc.len()
        invariant
            i <= wc.len(),
            wc.len() <= s.len(),
            wc@ == w@,
            forall|j: int| 0 <= j < wc@.len() ==> 'a' <= #[trigger] wc@[j] <= 'z',
            forall|j: int| 0 <= j < i ==> folds_to(#[trigger] s@[j], wc@[j]),
        decreases wc.len() - i,
    {
        if !folds_to_exec(s[i], wc[i]) {
            return false;
        }
        i = i + 1;
    }
    true
}

fn lead_digits_exec(s: &[char]) -> (r: usize)
    ensures
        r == lead_digits(s@),
        r <= s.len(),
{
    let mut i: usize = 0;
    assert(s@.skip(0) == s@);
    while i < s.len() && '0' <= s[i] && s[i] <= '9'
        invariant
            i <= s.len(),
            lead_digits(s@) == i + lead_digits(s@.skip(i as int)),
        decreases s.len() - i,
    {
        assert(s@.skip(i as int).drop_first() == s@.skip(i + 1));
        i = i + 1;
    }
    i
}

proof fn lemma_lead_digits_bound(s: Seq<char>)
    ensures
        lead_digits(s) <= s.len(),
    decreases s.len(),
{
    if s.len() > 0 {
        lemma_lead_digits_bound(s.drop_first());
    }
}

fn skip_vec(s: &[char], n: usize) -> (r: Vec<char>)
    requires
        n <= s.len(),
    ensures
        r@ == s@.skip(n as int),
{
    let r = slice_vec(s, n, s.len());
    assert(s@.subrange(n as int, s.len() as int) == s@.skip(n as int));
    r
}

fn after_colon_exec(s: &[char]) -> (r: Option<Vec<char>>)
    ensures
        match after_colon(s@) {
            Some(v) => r matches Some(x) && x@ == v,
            None => r is None,
        },
{
    let t = trim_start_chars(s);
    if t.len() > 1 && (t[0] == ':' || t[0] == '：') {
        Some(skip_vec(t.as_slice(), 1))
    } else {
        None
    }
}

fn after_label_exec(line: &[char], word: &str, alt: &str) -> (r: Option<Vec<char>>)
    requires
        forall|i: int| 0 <= i < word@.len() ==> 'a' <= #[trigger] word@[i] <= 'z',
    ensures
        match after_label(line@, word@, alt@) {
            Some(v) => r matches Some(x) && x@ == v,
            None => r is None,
        },
{
    let a = trim_start_chars(line);
    if starts_with_word_exec(a.as_slice(), word) {
        let wc = chars_of(word);
        Some(skip_vec(a.as_slice(), wc.len()))
    } else {
        let ac = chars_of(alt);
        if starts_with_chars(a.as_slice(), ac.as_slice()) {
            Some(skip_vec(a.as_slice(), ac.len()))
        } else {
            None
        }
    }
}

fn ssid_value_exec(line: &[char], numbered: bool) -> (r: Option<Vec<char>>)
    ensures
        match ssid_value(line@, numbered) {
            Some(v) => r matches Some(x) && x@ == v,
            None => r is None,
        },
{
    let a = trim_start_chars(line);
    proof {
        reveal_strlit("ssid");
    }
    if !starts_with_word_exec(a.as_slice(), "ssid") {
        return None;
    }
    let b = trim_start_chars(skip_vec(a.as_slice(), 4).as_slice());
    let c = if numbered {
        let n = lead_digits_exec(b.as_slice());
        trim_start_chars(skip_vec(b.as_slice(), n).as_slice())
    } else {
        b
    };
    match after_colon_exec(c.as_slice()) {
        Some(rest) => Some(trim_chars(rest.as_slice())),
        None => None,
    }
}

fn labelled_value_exec(line: &[char], word: &str, alt: &str) -> (r: Option<Vec<char>>)
    requires
        forall|i: int| 0 <= i < word@.len() ==> 'a' <= #[trigger] word@[i] <= 'z',
    ensures
        match labelled_value(line@, word@, alt@) {
            Some(v) => r matches Some(x) && x@ == v,
            None => r is None,
        },
{
    match after_label_exec(line, word, alt) {
        Some(rest) => match after_colon_exec(rest.as_slice()) {
            Some(v) => Some(trim_chars(v.as_slice())),
            None => None,
        },
        None => None,
    }
}

fn signal_digits_exec(line: &[char]) -> (r: Option<Vec<char>>)
    ensures
        match signal_digits(line@) {
            Some(v) => r matches Some(x) && x@ == v,
            None => r is None,
        },
{
    proof {
        reveal_strlit("signal");
    }
    match after_label_exec(line, "signal", "信号") {
        Some(rest) => {
            let c = trim_start_chars(rest.as_slice());
            if c.len() > 0 && (c[0] == ':' || c[0] == '：') {
                let d = trim_start_chars(skip_vec(c.as_slice(), 1).as_slice());
                let n = lead_digits_exec(d.as_slice());
                let e = trim_start_chars(skip_vec(d.as_slice(), n).as_slice());
                if n > 0 && e.len() > 0 && (e[0] == '%' || e[0] == '％') {
                    let tail = trim_start_chars(skip_vec(e.as_slice(), 1).as_slice());
                    if tail.len() == 0 {
                        let digits = slice_vec(d.as_slice(), 0, n);
                        assert(d@.subrange(0, n as int) == d@.take(n as int));
                        return Some(digits);
                    }
                }
            }
            None
        },
        None => None,
    }
}

fn has_percent_and_colon_exec(line: &[char]) -> (r: bool)
    ensures
        r == has_percent_and_colon(line@),
{
    (has_char(line, '%') || has_char(line, '％')) && (has_char(line, ':') || has_char(line, '：'))
}

fn digits_after_colon_exec(line: &[char]) -> (r: Vec<char>)
    ensures
        r@ == digits_after_colon(line@),
{
    match index_of_exec(line, ':') {
        Some(i) => {
            let rest = trim_start_chars(skip_vec(line, i + 1).as_slice());
            let n = lead_digits_exec(rest.as_slice());
            let d = slice_vec(rest.as_slice(), 0, n);
            assert(rest@.subrange(0, n as int) == rest@.take(n as int));
            d
        },
        None => Vec::new(),
    }
}

fn parse_u32_exec(s: &[char]) -> (r: Option<u32>)
    ensures
        r == parse_u32(s@),
{
    match parse_unsigned_exec(s, 10, 0xffff_ffff) {
        Some(v) => Some(v as u32),
        None => None,
    }
}

// ---------------------------------------------------------------------------
// `netsh wlan show networks`
// ---------------------------------------------------------------------------
/// The security label of an `Authentication` value.
pub open spec fn auth_security(raw: Seq<char>) -> WifiSecurity {
    let low = ascii_lower(raw);
    if contains(low, "enterprise"@) || contains(low, "802.1x"@) || contains(raw, "企业"@) {
        WifiSecurity::Enterprise
    } else if contains(low, "open"@) || contains(low, "none"@) {
        WifiSecurity::Open
    } else {
        WifiSecurity::Secured
    }
}

/// What reading the lines so far has gathered: the SSID and security being
/// read, one row per SSID (strongest signal, with the security read with
/// it), and whether a line could not be read.
pub struct NetworksScan {
    pub ssid: Option<Seq<char>>,
    pub security: WifiSecurity,
    pub rows: Seq<(Seq<char>, u32, WifiSecurity)>,
    pub failed: bool,
}

pub open spec fn netsh_row_has(ssid: Seq<char>) -> spec_fn((Seq<char>, u32, WifiSecurity)) -> bool {
    |r: (Seq<char>, u32, WifiSecurity)| r.0 == ssid
}

/// A signal reading for the SSID being read: a new SSID gets a row, a known
/// one keeps its row unless the signal is stronger.
pub open spec fn record_signal(st: NetworksScan, v: u32) -> NetworksScan {
    match st.ssid {
        Some(s) => match first_index(st.rows, netsh_row_has(s)) {
            Some(k) => if v > st.rows[k].1 {
                NetworksScan { rows: st.rows.update(k, (s, v, st.security)), ..st }
            } else {
                st
            },
            None => NetworksScan { rows: st.rows.push((s, v, st.security)), ..st },
        },
        None => st,
    }
}

pub open spec fn networks_step(st: NetworksScan, raw: Seq<char>) -> NetworksScan {
    let line = trim_start(raw);
    match ssid_value(line, true) {
        Some(v) => if v.len() > 0 {
            NetworksScan { ssid: Some(v), security: WifiSecurity::Unknown, ..st }
        } else {
            st
        },
        None => match labelled_value(line, "authentication"@, "身份验证"@) {
            Some(raw_auth) => NetworksScan { security: auth_security(raw_auth), ..st },
            None => match signal_digits(line) {
                Some(d) => match parse_u32(d) {
                    Some(v) => record_signal(st, v),
                    None => st,
                },
                None => if has_percent_and_colon(line) {
                    if fullwidth_colon_only(line) {
                        NetworksScan { failed: true, ..st }
                    } else {
                        match parse_u32(digits_after_colon(line)) {
                            Some(v) => record_signal(st, v),
                            None => st,
                        }
                    }
                } else {
                    st
                },
            },
        },
    }
}

pub open spec fn networks_scan(lines: Seq<Seq<char>>) -> NetworksScan
    decreases lines.len(),
{
    if lines.len() == 0 {
        NetworksScan { ssid: None, security: WifiSecurity::Unknown, rows: seq![], failed: false }
    } else {
        networks_step(networks_scan(lines.drop_last()), lines.last())
    }
}

/// Text the network listing reads without failing: no percentage line
/// falls through to the bare-colon reading with only a full-width colon.
pub open spec fn networks_readable(output: Seq<char>) -> bool {
    !networks_scan(lines_of(output)).failed
}

/// Rows (SSID, signal, security), one per SSID in order of first
/// appearance.
pub open spec fn netsh_network_rows(output: Seq<char>) -> Seq<(Seq<char>, u32, WifiSecurity)> {
    networks_scan(lines_of(output)).rows
}

/// Executable state of the network listing.
struct NetworksReader {
    ssid: Option<Vec<char>>,
    security: WifiSecurity,
    rows: Vec<(Vec<char>, u32, WifiSecurity)>,
    failed: bool,
}

spec fn row_views(v: Seq<(Vec<char>, u32, WifiSecurity)>) -> Seq<(Seq<char>, u32, WifiSecurity)> {
    v.map_values(|r: (Vec<char>, u32, WifiSecurity)| (r.0@, r.1, r.2))
}

impl NetworksReader {
    spec fn state(&self) -> NetworksScan {
        NetworksScan {
            ssid: match self.ssid {
                Some(s) => Some(s@),
                None => None,
            },
            security: self.security,
            rows: row_views(self.rows@),
            failed: self.failed,
        }
    }

    fn record(&mut self, v: u32)
        ensures
            final(self).state() == record_signal(old(self).state(), v),
    {
        let ghost st = self.state();
        let ghost rv = row_views(self.rows@);
        match &self.ssid {
            Some(s) => {
                let sc = slice_vec(s.as_slice(), 0, s.len());
                assert(s@.subrange(0, s@.len() as int) == s@);
                let sec = self.security;
                match position_of_netsh_row(&self.rows, sc.as_slice()) {
                    Some(i) => {
                        if v > self.rows[i].1 {
                            self.rows.set(i, (sc, v, sec));
                            proof {
                                assert(row_views(self.rows@) =~= rv.update(
                                    i as int,
                                    (st.ssid->0, v, st.security),
                                ));
                            }
                        }
                    },
                    None => {
                        self.rows.push((sc, v, sec));
                        proof {
                            assert(row_views(self.rows@) =~= rv.push((st.ssid->0, v, st.security)));
                        }
                    },
                }
            },
            None => {},
        }
    }

    fn step(&mut self, raw: &[char])
        ensures
            final(self).state() == networks_step(old(self).state(), raw@),
    {
        let line = trim_start_chars(raw);
        proof {
            reveal_strlit("authentication");
        }
        match ssid_value_exec(line.as_slice(), true) {
            Some(v) => {
                if v.len() > 0 {
                    self.ssid = Some(v);
                    self.security = WifiSecurity::Unknown;
                }
                return;
            },
            None => {},
        }
        match labelled_value_exec(line.as_slice(), "authentication", "身份验证") {
            Some(raw_auth) => {
                self.security = auth_security_exec(raw_auth.as_slice());
                return;
            },
            None => {},
        }
        match signal_digits_exec(line.as_slice()) {
            Some(d) => {
                match parse_u32_exec(d.as_slice()) {
                    Some(v) => self.record(v),
                    None => {},
                }
                return;
            },
            None => {},
        }
        if has_percent_and_colon_exec(line.as_slice()) {
            if !has_char(line.as_slice(), ':') {
                self.failed = true;
            } else {
                let d = digits_after_colon_exec(line.as_slice());
                match parse_u32_exec(d.as_slice()) {
                    Some(v) => self.record(v),
                    None => {},
                }
            }
        }
    }
}

fn position_of_netsh_row(rows: &Vec<(Vec<char>, u32, WifiSecurity)>, s: &[char]) -> (r: Option<
    usize,
>)
    ensures
        match first_index(row_views(rows@), netsh_row_has(s@)) {
            Some(k) => r == Some(k as usize) && 0 <= k < rows.len(),
            None => r is None,
        },
{
    let ghost rv = row_views(rows@);
    proof {
        lemma_first_index_bounds(rv, netsh_row_has(s@));
    }
    let mut i: usize = 0;
    while i < rows.len()
        invariant
            i <= rows.len(),
            rv == row_views(rows@),
            forall|j: int| 0 <= j < i ==> !(#[trigger] netsh_row_has(s@))(rv[j]),
        decreases rows.len() - i,
    {
        if eq_chars(rows[i].0.as_slice(), s) {
            proof {
                lemma_first_index_is(rv, netsh_row_has(s@), i as int);
            }
            return Some(i);
        }
        i = i + 1;
    }
    proof {
        lemma_first_index_none(rv, netsh_row_has(s@));
    }
    None
}

fn auth_security_exec(raw: &[char]) -> (r: WifiSecurity)
    ensures
        r == auth_security(raw@),
{
    let low = lower_vec(raw);
    let enterprise = chars_of("enterprise");
    let dot1x = chars_of("802.1x");
    let corp = chars_of("企业");
    let open = chars_of("open");
    let none = chars_of("none");
    if contains_chars(low.as_slice(), enterprise.as_slice()) || contains_chars(
        low.as_slice(),
        dot1x.as_slice(),
    ) || contains_chars(raw, corp.as_slice()) {
        WifiSecurity::Enterprise
    } else if contains_chars(low.as_slice(), open.as_slice()) || contains_chars(
        low.as_slice(),
        none.as_slice(),
    ) {
        WifiSecurity::Open
    } else {
        WifiSecurity::Secured
    }
}

proof fn lemma_scan_prefix(lines: Seq<Seq<char>>, i: int)
    requires
        0 <= i < lines.len(),
    ensures
        networks_scan(lines.take(i + 1)) == networks_step(networks_scan(lines.take(i)), lines[i]),
        iface_scan(lines.take(i + 1)) == iface_step(iface_scan(lines.take(i)), lines[i]),
{
    assert(lines.take(i + 1).drop_last() == lines.take(i));
    assert(lines.take(i + 1).last() == lines[i]);
}

/// The networks that `netsh wlan show networks` lists, one row per SSID with
/// its strongest signal.
pub fn parse_netsh_networks(output: &str) -> (r: Vec<(String, u32, WifiSecurity)>)
    requires
        networks_readable(output@),
    ensures
        r@.len() == netsh_network_rows(output@).len(),
        forall|i: int|
            0 <= i < r@.len() ==> ((#[trigger] r@[i]).0@, r@[i].1, r@[i].2) == netsh_network_rows(
                output@,
            )[i],
{
    let text = chars_of(output);
    let lines = lines_vec(text.as_slice());
    let ghost lv = views(lines@);
    let mut reader = NetworksReader {
        ssid: None,
        security: WifiSecurity::Unknown,
        rows: Vec::new(),
        failed: false,
    };
    proof {
        assert(reader.state().rows =~= seq![]);
        assert(lv.take(0) =~= seq![]);
    }
    let mut i: usize = 0;
    while i < lines.len()
        invariant
            i <= lines.len(),
            lv == views(lines@),
            lv == lines_of(output@),
            reader.state() == networks_scan(lv.take(i as int)),
        decreases lines.len() - i,
    {
        proof {
            lemma_scan_prefix(lv, i as int);
            assert(lv[i as int] == lines@[i as int]@);
        }
        reader.step(lines[i].as_slice());
        i = i + 1;
    }
    assert(lv.take(lines.len() as int) == lv);
    let ghost rv = row_views(reader.rows@);
    let mut out: Vec<(String, u32, WifiSecurity)> = Vec::new();
    let mut k: usize = 0;
    while k < reader.rows.len()
        invariant
            k <= reader.rows.len(),
            rv == row_views(reader.rows@),
            out.len() == k,
            forall|j: int| 0 <= j < k ==> ((#[trigger] out@[j]).0@, out@[j].1, out@[j].2) == rv[j],
        decreases reader.rows.len() - k,
    {
        let row = &reader.rows[k];
        out.push((string_of(row.0.as_slice()), row.1, row.2));
        k = k + 1;
    }
    out
}

/// Whether the network listing reads without failing (see
/// `networks_readable`).
pub fn netsh_networks_readable(output: &str) -> (r: bool)
    ensures
        r == networks_readable(output@),
{
    let text = chars_of(output);
    let lines = lines_vec(text.as_slice());
    let ghost lv = views(lines@);
    let mut reader = NetworksReader {
        ssid: None,
        security: WifiSecurity::Unknown,
        rows: Vec::new(),
        failed: false,
    };
    proof {
        assert(reader.state().rows =~= seq![]);
        assert(lv.take(0) =~= seq![]);
    }
    let mut i: usize = 0;
    while i < lines.len()
        invariant
            i <= lines.len(),
            lv == views(lines@),
            lv == lines_of(output@),
            reader.state() == networks_scan(lv.take(i as int)),
        decreases lines.len() - i,
    {
        proof {
            lemma_scan_prefix(lv, i as int);
            assert(lv[i as int] == lines@[i as int]@);
        }
        reader.step(lines[i].as_slice());
        i = i + 1;
    }
    assert(lv.take(lines.len() as int) == lv);
    !reader.failed
}

// ---------------------------------------------------------------------------
// `netsh wlan show interfaces`
// ---------------------------------------------------------------------------
/// What reading the interface lines has gathered.
pub struct IfaceScan {
    pub ssid: Option<Seq<char>>,
    pub signal: Option<u32>,
    pub disconnected: bool,
    pub failed: bool,
}

pub open spec fn iface_step(st: IfaceScan, raw: Seq<char>) -> IfaceScan {
    let line = trim_start(raw);
    if starts_with(ascii_lower(line), "ssid name"@) {
        st
    } else {
        match labelled_value(line, "state"@, "状态"@) {
            Some(v) => {
                let low = ascii_lower(v);
                if contains(low, "disconnected"@) || contains(low, "已断开"@) {
                    IfaceScan { disconnected: true, ..st }
                } else {
                    st
                }
            },
            None => match ssid_value(line, false) {
                Some(s) => if s.len() > 0 {
                    IfaceScan { ssid: Some(s), ..st }
                } else {
                    st
                },
                None => match signal_digits(line) {
                    Some(d) => match parse_u32(d) {
                        Some(v) => IfaceScan { signal: Some(v), ..st },
                        None => st,
                    },
                    None => if has_percent_and_colon(line) && st.signal is None {
                        if fullwidth_colon_only(line) {
                            IfaceScan { failed: true, ..st }
                        } else {
                            match parse_u32(digits_after_colon(line)) {
                                Some(v) => IfaceScan { signal: Some(v), ..st },
                                None => st,
                            }
                        }
                    } else {
                        st
                    },
                },
            },
        }
    }
}

pub open spec fn iface_scan(lines: Seq<Seq<char>>) -> IfaceScan
    decreases lines.len(),
{
    if lines.len() == 0 {
        IfaceScan { ssid: None, signal: None, disconnected: false, failed: false }
    } else {
        iface_step(iface_scan(lines.drop_last()), lines.last())
    }
}

pub open spec fn iface_readable(output: Seq<char>) -> bool {
    !iface_scan(lines_of(output)).failed
}

/// The connected SSID and its signal (0 when unread), unless the interface
/// reads as disconnected or names no SSID.
pub open spec fn netsh_connection(output: Seq<char>) -> Option<(Seq<char>, u32)> {
    let st = iface_scan(lines_of(output));
    if st.disconnected {
        None
    } else {
        match st.ssid {
            Some(s) => Some(
                (
                    s,
                    match st.signal {
                        Some(g) => g,
                        None => 0,
                    },
                ),
            ),
            None => None,
        }
    }
}

struct IfaceReader {
    ssid: Option<Vec<char>>,
    signal: Option<u32>,
    disconnected: bool,
    failed: bool,
}

impl IfaceReader {
    spec fn state(&self) -> IfaceScan {
        IfaceScan {
            ssid: match self.ssid {
                Some(s) => Some(s@),
                None => None,
            },
            signal: self.signal,
            disconnected: self.disconnected,
            failed: self.failed,
        }
    }

    fn step(&mut self, raw: &[char])
        ensures
            final(self).state() == iface_step(old(self).state(), raw@),
    {
        let line = trim_start_chars(raw);
        let low = lower_vec(line.as_slice());
        let ssid_name = chars_of("ssid name");
        if starts_with_chars(low.as_slice(), ssid_name.as_slice()) {
            return;
        }
        proof {
            reveal_strlit("state");
        }
        match labelled_value_exec(line.as_slice(), "state", "状态") {
            Some(v) => {
                let lv = lower_vec(v.as_slice());
                let a = chars_of("disconnected");
                let b = chars_of("已断开");
                if contains_chars(lv.as_slice(), a.as_slice()) || contains_chars(
                    lv.as_slice(),
                    b.as_slice(),
                ) {
                    self.disconnected = true;
                }
                return;
            },
            None => {},
        }
        match ssid_value_exec(line.as_slice(), false) {
            Some(s) => {
                if s.len() > 0 {
                    self.ssid = Some(s);
                }
                return;
            },
            None => {},
        }
        match signal_digits_exec(line.as_slice()) {
            Some(d) => {
                match parse_u32_exec(d.as_slice()) {
                    Some(v) => {
                        self.signal = Some(v);
                    },
                    None => {},
                }
                return;
            },
            None => {},
        }
        if has_percent_and_colon_exec(line.as_slice()) && self.signal.is_none() {
            if !has_char(line.as_slice(), ':') {
                self.failed = true;
            } else {
                let d = digits_after_colon_exec(line.as_slice());
                match parse_u32_exec(d.as_slice()) {
                    Some(v) => {
                        self.signal = Some(v);
                    },
                    None => {},
                }
            }
        }
    }
}

/// The connected SSID and signal that `netsh wlan show interfaces` reports.
/// Whether the interface listing reads without failing (see
/// `iface_readable`).
pub fn netsh_interface_readable(output: &str) -> (r: bool)
    ensures
        r == iface_readable(output@),
{
    let text = chars_of(output);
    let lines = lines_vec(text.as_slice());
    let ghost lv = views(lines@);
    let mut reader = IfaceReader { ssid: None, signal: None, disconnected: false, failed: false };
    let mut i: usize = 0;
    while i < lines.len()
        invariant
            i <= lines.len(),
            lv == views(lines@),
            lv == lines_of(output@),
            reader.state() == iface_scan(lv.take(i as int)),
        decreases lines.len() - i,
    {
        proof {
            lemma_scan_prefix(lv, i as int);
            assert(lv[i as int] == lines@[i as int]@);
        }
        reader.step(lines[i].as_slice());
        i = i + 1;
    }
    assert(lv.take(lines.len() as int) == lv);
    !reader.failed
}

pub fn parse_netsh_interface(output: &str) -> (r: Option<(String, u32)>)
    requires
        iface_readable(output@),
    ensures
        match netsh_connection(output@) {
            Some((s, g)) => r matches Some(x) && x.0@ == s && x.1 == g,
            None => r is None,
        },
{
    let text = chars_of(output);
    let lines = lines_vec(text.as_slice());
    let ghost lv = views(lines@);
    let mut reader = IfaceReader { ssid: None, signal: None, disconnected: false, failed: false };
    let mut i: usize = 0;
    while i < lines.len()
        invariant
            i <= lines.len(),
            lv == views(lines@),
            lv == lines_of(output@),
            reader.state() == iface_scan(lv.take(i as int)),
        decreases lines.len() - i,
    {
        proof {
            lemma_scan_prefix(lv, i as int);
            assert(lv[i as int] == lines@[i as int]@);
        }
        reader.step(lines[i].as_slice());
        i = i + 1;
    }
    assert(lv.take(lines.len() as int) == lv);
    if reader.disconnected {
        return None;
    }
    match reader.ssid {
        Some(s) => {
            let g = match reader.signal {
                Some(g) => g,
                None => 0,
            };
            Some((string_of(s.as_slice()), g))
        },
        None => None,
    }
}

// ---------------------------------------------------------------------------
// Bytes of netsh output
// ---------------------------------------------------------------------------
/// UTF-16 decoding with each unpaired surrogate replaced by U+FFFD.
pub open spec fn utf16_lossy(u: Seq<u16>) -> Seq<char>
    decreases u.len(),
{
    if u.len() == 0 {
        seq![]
    } else if u[0] < 0xD800 || u[0] >= 0xE000 {
        seq![u[0] as char] + utf16_lossy(u.skip(1))
    } else if u[0] < 0xDC00 && u.len() >= 2 && 0xDC00 <= u[1] && u[1] < 0xE000 {
        seq![(0x10000 + (u[0] - 0xD800) * 0x400 + (u[1] - 0xDC00)) as char] + utf16_lossy(
            u.skip(2),
        )
    } else {
        seq!['\u{FFFD}'] + utf16_lossy(u.skip(1))
    }
}

/// Calls `String::from_utf16_lossy`, whose documentation gives the decoding
/// stated by `utf16_lossy`.
#[verifier::external_body]
fn from_utf16_lossy(units: &[u16]) -> (r: String)
    ensures
        r@ == utf16_lossy(units@),
{
    String::from_utf16_lossy(units)
}

/// Byte pairs as UTF-16 code units (a last odd byte dropped).
pub open spec fn utf16_units(bytes: Seq<u8>, little_endian: bool) -> Seq<u16> {
    Seq::new(
        bytes.len() / 2,
        |i: int|
            if little_endian {
                (bytes[2 * i] + 256 * bytes[2 * i + 1]) as u16
            } else {
                (256 * bytes[2 * i] + bytes[2 * i + 1]) as u16
            },
    )
}

pub open spec fn zero_count(bytes: Seq<u8>) -> nat
    decreases bytes.len(),
{
    if bytes.len() == 0 {
        0
    } else {
        zero_count(bytes.drop_last()) + if bytes.last() == 0 {
            1nat
        } else {
            0nat
        }
    }
}

/// Text that reads as a netsh listing.
pub open spec fn looks_like_listing(s: Seq<char>) -> bool {
    contains(s, "SSID"@) || contains(s, "ssid"@) || contains(s, "信号"@) || contains(s, "状态"@)
}

/// netsh output as text: UTF-16 after a byte-order mark, UTF-16 when over a
/// quarter of the bytes are NUL (little-endian if it reads as a listing,
/// else big-endian), else UTF-8, else GBK.
pub open spec fn decode_netsh(bytes: Seq<u8>) -> Seq<char> {
    if bytes.len() == 0 {
        seq![]
    } else if bytes.len() >= 4 && bytes[0] == 0xFF && bytes[1] == 0xFE {
        utf16_lossy(utf16_units(bytes.skip(2), true))
    } else if bytes.len() >= 4 && bytes[0] == 0xFE && bytes[1] == 0xFF {
        utf16_lossy(utf16_units(bytes.skip(2), false))
    } else if bytes.len() >= 2 && zero_count(bytes) > bytes.len() / 4 {
        let le = utf16_lossy(utf16_units(bytes, true));
        if looks_like_listing(le) {
            le
        } else {
            utf16_lossy(utf16_units(bytes, false))
        }
    } else {
        utf8_or_gbk(bytes)
    }
}

fn utf16_units_exec(bytes: &[u8], little_endian: bool) -> (r: Vec<u16>)
    ensures
        r@ == utf16_units(bytes@, little_endian),
{
    let mut out: Vec<u16> = Vec::new();
    let n = bytes.len() / 2;
    let mut i: usize = 0;
    while i < n
        invariant
            n == bytes.len() / 2,
            i <= n,
            out@ =~= utf16_units(bytes@, little_endian).take(i as int),
        decreases n - i,
    {
        let a = bytes[2 * i] as u16;
        let b = bytes[2 * i + 1] as u16;
        let v: u16 = if little_endian {
            a + 256 * b
        } else {
            256 * a + b
        };
        out.push(v);
        i = i + 1;
        assert(out@ =~= utf16_units(bytes@, little_endian).take(i as int));
    }
    out
}

fn decode_utf16_exec(bytes: &[u8], little_endian: bool) -> (r: Vec<char>)
    ensures
        r@ == utf16_lossy(utf16_units(bytes@, little_endian)),
{
    let units = utf16_units_exec(bytes, little_endian);
    let s = from_utf16_lossy(units.as_slice());
    chars_of(s.as_str())
}

fn zero_count_exec(bytes: &[u8]) -> (r: usize)
    ensures
        r == zero_count(bytes@),
{
    let mut c: usize = 0;
    let mut i: usize = 0;
    while i < bytes.len()
        invariant
            i <= bytes.len(),
            c == zero_count(bytes@.take(i as int)),
            c <= i,
        decreases bytes.len() - i,
    {
        assert(bytes@.take(i + 1).drop_last() == bytes@.take(i as int));
        if bytes[i] == 0 {
            c = c + 1;
        }
        i = i + 1;
    }
    assert(bytes@.take(bytes.len() as int) == bytes@);
    c
}

fn looks_like_listing_exec(s: &[char]) -> (r: bool)
    ensures
        r == looks_like_listing(s@),
{
    let a = chars_of("SSID");
    let b = chars_of("ssid");
    let c = chars_of("信号");
    let d = chars_of("状态");
    contains_chars(s, a.as_slice()) || contains_chars(s, b.as_slice()) || contains_chars(
        s,
        c.as_slice(),
    ) || contains_chars(s, d.as_slice())
}

fn skip_bytes(s: &[u8], n: usize) -> (r: Vec<u8>)
    requires
        n <= s.len(),
    ensures
        r@ == s@.skip(n as int),
{
    let mut out: Vec<u8> = Vec::new();
    let mut i: usize = n;
    while i < s.len()
        invariant
            n <= i <= s.len(),
            out@ =~= s@.subrange(n as int, i as int),
        decreases s.len() - i,
    {
        out.push(s[i]);
        i = i + 1;
        assert(out@ =~= s@.subrange(n as int, i as int));
    }
    assert(s@.subrange(n as int, s.len() as int) =~= s@.skip(n as int));
    out
}

/// The text of netsh's output bytes.
pub fn decode_netsh_text(bytes: &[u8]) -> (r: String)
    requires
        bytes.len() <= 0x0fff_ffff,
    ensures
        r@ == decode_netsh(bytes@),
{
    if bytes.len() == 0 {
        return String::new();
    }
    if bytes.len() >= 4 && bytes[0] == 0xFF && bytes[1] == 0xFE {
        let rest = skip_bytes(bytes, 2);
        let t = decode_utf16_exec(rest.as_slice(), true);
        return string_of(t.as_slice());
    }
    if bytes.len() >= 4 && bytes[0] == 0xFE && bytes[1] == 0xFF {
        let rest = skip_bytes(bytes, 2);
        let t = decode_utf16_exec(rest.as_slice(), false);
        return string_of(t.as_slice());
    }
    if bytes.len() >= 2 && zero_count_exec(bytes) > bytes.len() / 4 {
        let le = decode_utf16_exec(bytes, true);
        if looks_like_listing_exec(le.as_slice()) {
            return string_of(le.as_slice());
        }
        let be = decode_utf16_exec(bytes, false);
        return string_of(be.as_slice());
    }
    match str_from_utf8(bytes) {
        Some(s) => {
            let c = chars_of(s);
            string_of(c.as_slice())
        },
        None => decode_gbk(bytes),
    }
}

/// Output saying that WLAN listing needs location permission.
pub open spec fn location_restricted_text(output: Seq<char>) -> bool {
    let lower = ascii_lower(output);
    &&& trim(output).len() > 0
    &&& {
        ||| contains(lower, "ms-settings:privacy-location"@)
        ||| contains(lower, "ms-settings：privacy-location"@)
        ||| (contains(lower, "wlan"@) && contains(lower, "location permission"@))
        ||| (contains(lower, "wifi"@) && contains(lower, "location permission"@))
        ||| contains(output, "位置权限"@)
        ||| contains(output, "定位服务"@)
    }
}

pub fn is_wlan_location_permission_restricted_output(output: &str) -> (r: bool)
    ensures
        r == location_restricted_text(output@),
{
    let text = chars_of(output);
    let t = trim_chars(text.as_slice());
    if t.len() == 0 {
        return false;
    }
    let lower = lower_vec(text.as_slice());
    let a = chars_of("ms-settings:privacy-location");
    let b = chars_of("ms-settings：privacy-location");
    let wlan = chars_of("wlan");
    let wifi = chars_of("wifi");
    let perm = chars_of("location permission");
    let c = chars_of("位置权限");
    let d = chars_of("定位服务");
    contains_chars(lower.as_slice(), a.as_slice()) || contains_chars(lower.as_slice(), b.as_slice())
        || (contains_chars(lower.as_slice(), wlan.as_slice()) && contains_chars(
        lower.as_slice(),
        perm.as_slice(),
    )) || (contains_chars(lower.as_slice(), wifi.as_slice()) && contains_chars(
        lower.as_slice(),
        perm.as_slice(),
    )) || contains_chars(text.as_slice(), c.as_slice()) || contains_chars(
        text.as_slice(),
        d.as_slice(),
    )
}

/// At most `max_chars` characters of `s` (an ellipsis marking a cut),
/// trimmed.
pub open spec fn truncated(s: Seq<char>, max_chars: nat) -> Seq<char> {
    if s.len() <= max_chars {
        trim(s)
    } else {
        trim(s.take(max_chars as int) + seq!['…'])
    }
}

pub fn truncate_for_log(s: &str, max_chars: usize) -> (r: String)
    ensures
        r@ == truncated(s@, max_chars as nat),
{
    let c = chars_of(s);
    if c.len() <= max_chars {
        let t = trim_chars(c.as_slice());
        return string_of(t.as_slice());
    }
    let mut out = slice_vec(c.as_slice(), 0, max_chars);
    assert(c@.subrange(0, max_chars as int) == c@.take(max_chars as int));
    out.push('…');
    assert(out@ == s@.take(max_chars as int) + seq!['…']);
    let t = trim_chars(out.as_slice());
    string_of(t.as_slice())
}

// ---------------------------------------------------------------------------
// The list from netsh
// ---------------------------------------------------------------------------
/// What the location-privacy probe found.
#[derive(Clone, Copy, Debug, PartialEq, Eq, Structural)]
pub enum LocationRestrictionProbe {
    Restricted,
    Allowed,
    Unknown,
}

/// The network rows are read again from plain `netsh wlan show networks`
/// when the detailed listing had text but no row.
pub open spec fn needs_fallback(available: Seq<char>) -> bool {
    netsh_network_rows(available).len() == 0 && trim(available).len() > 0
}

pub fn netsh_needs_fallback(available_out: &str) -> (r: bool)
    requires
        networks_readable(available_out@),
    ensures
        r == needs_fallback(available_out@),
{
    let rows = parse_netsh_networks(available_out);
    let c = chars_of(available_out);
    let t = trim_chars(c.as_slice());
    rows.len() == 0 && t.len() > 0
}

pub open spec fn text_or_empty(t: Option<Seq<char>>) -> Seq<char> {
    match t {
        Some(x) => x,
        None => seq![],
    }
}

/// The rows read: the fallback listing's when it was needed and has rows.
pub open spec fn chosen_rows(available: Seq<char>, fallback: Option<Seq<char>>) -> Seq<
    (Seq<char>, u32, WifiSecurity),
> {
    let fb = netsh_network_rows(text_or_empty(fallback));
    if needs_fallback(available) && fb.len() > 0 {
        fb
    } else {
        netsh_network_rows(available)
    }
}

/// Listing is blocked by location privacy: the probe says so, or, when the
/// probe could not tell, one of the outputs read says so.
pub open spec fn location_blocked(
    probe: LocationRestrictionProbe,
    available: Seq<char>,
    interfaces: Seq<char>,
    fallback: Option<Seq<char>>,
) -> bool {
    ||| probe == LocationRestrictionProbe::Restricted
    ||| probe == LocationRestrictionProbe::Unknown && (location_restricted_text(available)
        || location_restricted_text(interfaces) || (needs_fallback(available)
        && location_restricted_text(text_or_empty(fallback))))
}

/// A listed row, marked connected when it carries the connected SSID, whose
/// interface signal (when above 0) it then shows.
pub open spec fn netsh_row(r: (Seq<char>, u32, WifiSecurity), conn: Option<(Seq<char>, u32)>) -> NetRow {
    let connected = conn matches Some(c) && c.0 == r.0;
    NetRow {
        ssid: r.0,
        signal: match conn {
            Some(c) => if c.0 == r.0 && c.1 > 0 {
                c.1
            } else {
                r.1
            },
            None => r.1,
        },
        security: r.2,
        connected,
    }
}

pub open spec fn netsh_rows_marked(
    rows: Seq<(Seq<char>, u32, WifiSecurity)>,
    conn: Option<(Seq<char>, u32)>,
) -> Seq<NetRow> {
    let listed = rows.map_values(|r: (Seq<char>, u32, WifiSecurity)| netsh_row(r, conn));
    match conn {
        Some(c) => if exists|i: int| 0 <= i < listed.len() && (#[trigger] listed[i]).ssid == c.0 {
            listed
        } else {
            listed.push(NetRow { ssid: c.0, signal: c.1, security: WifiSecurity::Unknown, connected: true })
        },
        None => listed,
    }
}

/// The Wi-Fi list read from netsh, or `None` when location privacy blocks
/// it and no row was read.
pub open spec fn netsh_listing(
    probe: LocationRestrictionProbe,
    available: Seq<char>,
    interfaces: Seq<char>,
    fallback: Option<Seq<char>>,
) -> Option<Seq<NetRow>> {
    let rows = chosen_rows(available, fallback);
    if location_blocked(probe, available, interfaces, fallback) && rows.len() == 0 {
        None
    } else {
        Some(netsh_rows_marked(rows, netsh_connection(interfaces)))
    }
}

pub open spec fn opt_view(t: Option<&str>) -> Option<Seq<char>> {
    match t {
        Some(x) => Some(x@),
        None => None,
    }
}

/// The message of the error returned when location privacy blocks listing.
pub open spec fn location_permission_error() -> Seq<char> {
    "WLAN_LOCATION_PERMISSION_REQUIRED"@
}

fn mark_rows(rows: Vec<(String, u32, WifiSecurity)>, conn: &Option<(String, u32)>) -> (r: Vec<
    WifiNetwork,
>)
    ensures
        network_views(r@) == netsh_rows_marked(
            rows@.map_values(|x: (String, u32, WifiSecurity)| (x.0@, x.1, x.2)),
            match conn {
                Some(c) => Some((c.0@, c.1)),
                None => None,
            },
        ),
{
    let ghost rv = rows@.map_values(|x: (String, u32, WifiSecurity)| (x.0@, x.1, x.2));
    let ghost cv: Option<(Seq<char>, u32)> = match conn {
        Some(c) => Some((c.0@, c.1)),
        None => None,
    };
    let ghost listed = rv.map_values(|r: (Seq<char>, u32, WifiSecurity)| netsh_row(r, cv));
    let mut out: Vec<WifiNetwork> = Vec::new();
    let mut found = false;
    let mut i: usize = 0;
    while i < rows.len()
        invariant
            i <= rows.len(),
            rv == rows@.map_values(|x: (String, u32, WifiSecurity)| (x.0@, x.1, x.2)),
            cv == (match conn {
                Some(c) => Some((c.0@, c.1)),
                None => None,
            }),
            listed == rv.map_values(|r: (Seq<char>, u32, WifiSecurity)| netsh_row(r, cv)),
            out.len() == i,
            network_views(out@) =~= listed.take(i as int),
            found == (cv matches Some(c) && exists|j: int| 0 <= j < i && (#[trigger] listed[j]).ssid == c.0),
        decreases rows.len() - i,
    {
        let row = &rows[i];
        let connected = match conn {
            Some(c) => crate::text::eq_str(c.0.as_str(), row.0.as_str()),
            None => false,
        };
        let signal = match conn {
            Some(c) => if connected && c.1 > 0 {
                c.1
            } else {
                row.1
            },
            None => row.1,
        };
        let ssid_chars = chars_of(row.0.as_str());
        let n = WifiNetwork { ssid: string_of(ssid_chars.as_slice()), signal, security: row.2, connected };
        proof {
            assert(rv[i as int] == (row.0@, row.1, row.2));
            assert(n@ == listed[i as int]);
        }
        let ghost before = out@;
        out.push(n);
        proof {
            assert(network_views(out@) =~= network_views(before).push(listed[i as int]));
        }
        found = found || connected;
        i = i + 1;
    }
    proof {
        assert(listed.take(rows.len() as int) =~= listed);
    }
    match conn {
        Some(c) => {
            if !found {
                let cs = chars_of(c.0.as_str());
                let extra = WifiNetwork {
                    ssid: string_of(cs.as_slice()),
                    signal: c.1,
                    security: WifiSecurity::Unknown,
                    connected: true,
                };
                let ghost before = out@;
                out.push(extra);
                proof {
                    assert(network_views(out@) =~= network_views(before).push(
                        NetRow { ssid: c.0@, signal: c.1, security: WifiSecurity::Unknown, connected: true },
                    ));
                }
            }
            out
        },
        None => out,
    }
}

/// The Wi-Fi list read from netsh's network and interface listings (and the
/// plain listing, when `netsh_needs_fallback` asked for it), or the
/// location-permission error.
pub fn netsh_wifi_networks(
    probe: LocationRestrictionProbe,
    available_out: &str,
    interfaces_out: &str,
    fallback_out: Option<&str>,
) -> (r: Result<Vec<WifiNetwork>, String>)
    requires
        networks_readable(available_out@),
        networks_readable(text_or_empty(opt_view(fallback_out))),
        iface_readable(interfaces_out@),
    ensures
        match netsh_listing(probe, available_out@, interfaces_out@, opt_view(fallback_out)) {
            Some(rows) => r matches Ok(v) && network_views(v@) == rows,
            None => r matches Err(e) && e@ == location_permission_error(),
        },
{
    let allow_text = probe == LocationRestrictionProbe::Unknown;
    let mut restricted = probe == LocationRestrictionProbe::Restricted;
    if allow_text && is_wlan_location_permission_restricted_output(available_out) {
        restricted = true;
    }
    if allow_text && is_wlan_location_permission_restricted_output(interfaces_out) {
        restricted = true;
    }
    let connected = parse_netsh_interface(interfaces_out);
    let mut rows = parse_netsh_networks(available_out);
    let ghost av = netsh_network_rows(available_out@);
    assert(rows@.map_values(|x: (String, u32, WifiSecurity)| (x.0@, x.1, x.2)) =~= av);
    if netsh_needs_fallback(available_out) {
        let fb: &str = match fallback_out {
            Some(t) => t,
            None => "",
        };
        proof {
            reveal_strlit("");
            assert(fb@ == text_or_empty(opt_view(fallback_out)));
        }
        if allow_text && is_wlan_location_permission_restricted_output(fb) {
            restricted = true;
        }
        let fallback_rows = parse_netsh_networks(fb);
        let ghost fv = netsh_network_rows(fb@);
        assert(fallback_rows@.map_values(|x: (String, u32, WifiSecurity)| (x.0@, x.1, x.2)) =~= fv);
        if fallback_rows.len() > 0 {
            rows = fallback_rows;
        }
    }
    let ghost chosen = chosen_rows(available_out@, opt_view(fallback_out));
    assert(rows@.map_values(|x: (String, u32, WifiSecurity)| (x.0@, x.1, x.2)) == chosen);
    if restricted && rows.len() == 0 {
        let e = chars_of("WLAN_LOCATION_PERMISSION_REQUIRED");
        return Err(string_of(e.as_slice()));
    }
    Ok(mark_rows(rows, &connected))
}

/// No SSID has two rows.
pub open spec fn one_row_per_netsh_ssid(rows: Seq<(Seq<char>, u32, WifiSecurity)>) -> bool {
    forall|i: int, j: int| 0 <= i < j < rows.len() ==> rows[i].0 != rows[j].0
}

proof fn lemma_record_signal_rows(st: NetworksScan, v: u32)
    requires
        one_row_per_netsh_ssid(st.rows),
    ensures
        one_row_per_netsh_ssid(record_signal(st, v).rows),
{
    if let Some(s) = st.ssid {
        lemma_first_index_bounds(st.rows, netsh_row_has(s));
        match first_index(st.rows, netsh_row_has(s)) {
            Some(k) => {},
            None => {
                assert forall|i: int| 0 <= i < st.rows.len() implies st.rows[i].0 != s by {
                    if st.rows[i].0 == s {
                        assert(netsh_row_has(s)(st.rows[i]));
                    }
                }
            },
        }
    }
}

/// Reading a network listing gives at most one row per SSID.
pub proof fn lemma_netsh_one_row_per_ssid(lines: Seq<Seq<char>>)
    ensures
        one_row_per_netsh_ssid(networks_scan(lines).rows),
    decreases lines.len(),
{
    if lines.len() > 0 {
        lemma_netsh_one_row_per_ssid(lines.drop_last());
        let st = networks_scan(lines.drop_last());
        assert forall|v: u32| one_row_per_netsh_ssid(#[trigger] record_signal(st, v).rows) by {
            lemma_record_signal_rows(st, v);
        }
    }
}

/// What the request for location access answered.
#[derive(Clone, Copy, Debug, PartialEq, Eq, Structural)]
pub enum GeolocationAccess {
    Allowed,
    Denied,
    Unspecified,
}

/// What the location service reported of its state, once access is
/// allowed: switched off, not available, without data, another state, or
/// nothing (the service could not be created or asked).
#[derive(Clone, Copy, Debug, PartialEq, Eq, Structural)]
pub enum LocationStatusReading {
    Disabled,
    NotAvailable,
    NoData,
    Working,
    Unreadable,
}

/// Whether location access keeps Wi-Fi networks from being listed: unknown
/// when access could not be asked (`None`) or was left unspecified,
/// restricted when denied or when the service is off, without data or not
/// available, and allowed otherwise.
pub fn location_restriction_verdict(access: Option<GeolocationAccess>, status: LocationStatusReading) -> (r: LocationRestrictionProbe)
    ensures
        r == match access {
            None => LocationRestrictionProbe::Unknown,
            Some(GeolocationAccess::Denied) => LocationRestrictionProbe::Restricted,
            Some(GeolocationAccess::Unspecified) => LocationRestrictionProbe::Unknown,
            Some(GeolocationAccess::Allowed) => match status {
                LocationStatusReading::Disabled | LocationStatusReading::NotAvailable
                | LocationStatusReading::NoData => LocationRestrictionProbe::Restricted,
                _ => LocationRestrictionProbe::Allowed,
            },
        },
{
    match access {
        None => LocationRestrictionProbe::Unknown,
        Some(GeolocationAccess::Denied) => LocationRestrictionProbe::Restricted,
        Some(GeolocationAccess::Unspecified) => LocationRestrictionProbe::Unknown,
        Some(GeolocationAccess::Allowed) => match status {
            LocationStatusReading::Disabled | LocationStatusReading::NotAvailable
            | LocationStatusReading::NoData => LocationRestrictionProbe::Restricted,
            _ => LocationRestrictionProbe::Allowed,
        },
    }
}

} // verus!
