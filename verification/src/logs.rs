//! Rotation of the log files: their names, when the current file is full,
//! and which old files are removed so that only the newest are kept.
use vstd::prelude::*;

use crate::constants::{join_path, joined};
use crate::text::{
    chars_of, decimal, ends_with, ends_with_chars, pad_left, pad_left_vec, push_all, radix_digits,
    starts_with, starts_with_str, string_of,
};

verus! {

/// `n` in decimal, padded with zeros to `width` digits (`{:0width$}`).
pub open spec fn zero_padded(n: nat, width: nat) -> Seq<char> {
    pad_left(radix_digits(n, 10, false), width, '0')
}

/// A signed number as `{:0width$}` writes it: a minus sign first, and the
/// zeros after it.
pub open spec fn signed_zero_padded(n: int, width: nat) -> Seq<char> {
    if n < 0 {
        seq!['-'] + zero_padded((-n) as nat, (width - 1) as nat)
    } else {
        zero_padded(n as nat, width)
    }
}

/// `{prefix}_{year:04}_{month:02}_{day:02}_{hour:02}{minute:02}{second:02}_{millis:03}.log`
pub open spec fn log_file_name_of(
    prefix: Seq<char>,
    year: int,
    month: nat,
    day: nat,
    hour: nat,
    minute: nat,
    second: nat,
    millis: nat,
) -> Seq<char> {
    prefix + seq!['_'] + signed_zero_padded(year, 4) + seq!['_'] + zero_padded(month, 2) + seq!['_']
        + zero_padded(day, 2) + seq!['_'] + zero_padded(hour, 2) + zero_padded(minute, 2)
        + zero_padded(second, 2) + seq!['_'] + zero_padded(millis, 3) + seq!['.', 'l', 'o', 'g']
}

fn push_zero_padded(dst: &mut Vec<char>, n: u64, width: usize)
    ensures
        final(dst)@ == old(dst)@ + zero_padded(n as nat, width as nat),
{
    let d = decimal(n);
    let p = pad_left_vec(d, width, '0');
    push_all(dst, p.as_slice());
}

/// The name of a log file opened at the given local time.
pub fn log_file_name(
    file_prefix: &str,
    year: i32,
    month: u8,
    day: u8,
    hour: u8,
    minute: u8,
    second: u8,
    millisecond: u16,
) -> (r: String)
    ensures
        r@ == log_file_name_of(
            file_prefix@,
            year as int,
            month as nat,
            day as nat,
            hour as nat,
            minute as nat,
            second as nat,
            millisecond as nat,
        ),
{
    let mut v = chars_of(file_prefix);
    v.push('_');
    if year < 0 {
        v.push('-');
        let magnitude: u64 = (0i64 - (year as i64)) as u64;
        push_zero_padded(&mut v, magnitude, 3);
    } else {
        push_zero_padded(&mut v, year as u64, 4);
    }
    v.push('_');
    push_zero_padded(&mut v, month as u64, 2);
    v.push('_');
    push_zero_padded(&mut v, day as u64, 2);
    v.push('_');
    push_zero_padded(&mut v, hour as u64, 2);
    push_zero_padded(&mut v, minute as u64, 2);
    push_zero_padded(&mut v, second as u64, 2);
    v.push('_');
    push_zero_padded(&mut v, millisecond as u64, 3);
    v.push('.');
    v.push('l');
    v.push('o');
    v.push('g');
    proof {
        let p = file_prefix@;
        let y = signed_zero_padded(year as int, 4);
        if year < 0 {
            assert(seq!['-'] + zero_padded((-(year as int)) as nat, 3) == y);
        }
        assert(v@ =~= log_file_name_of(
            p,
            year as int,
            month as nat,
            day as nat,
            hour as nat,
            minute as nat,
            second as nat,
            millisecond as nat,
        ));
    }
    string_of(v.as_slice())
}

/// The number of bytes written to the current log file, against the size at
/// which a new file is begun.
pub struct LogSizeTracker {
    pub current_size: u64,
    pub max_size: u64,
}

impl LogSizeTracker {
    pub fn new(initial_size: u64, max_size: u64) -> (r: Self)
        ensures
            r.current_size == initial_size,
            r.max_size == max_size,
    {
        LogSizeTracker { current_size: initial_size, max_size }
    }

    /// Before a write: whether the current file is full, in which case a new
    /// file is begun and its size starts from zero.
    pub fn begin_write(&mut self) -> (rotate: bool)
        ensures
            rotate == (old(self).current_size >= old(self).max_size),
            final(self).current_size == if rotate {
                0
            } else {
                old(self).current_size
            },
            final(self).max_size == old(self).max_size,
    {
        if self.current_size >= self.max_size {
            self.current_size = 0;
            true
        } else {
            false
        }
    }

    /// After a write of `written` bytes.
    pub fn record_written(&mut self, written: u64)
        requires
            old(self).current_size + written <= u64::MAX,
        ensures
            final(self).current_size == old(self).current_size + written,
            final(self).max_size == old(self).max_size,
    {
        self.current_size = self.current_size + written;
    }
}

/// The path of a new log file in the log folder.
pub fn log_file_path(
    log_dir: &str,
    file_prefix: &str,
    year: i32,
    month: u8,
    day: u8,
    hour: u8,
    minute: u8,
    second: u8,
    millisecond: u16,
) -> (r: String)
    ensures
        r@ == joined(
            log_dir@,
            log_file_name_of(
                file_prefix@,
                year as int,
                month as nat,
                day as nat,
                hour as nat,
                minute as nat,
                second as nat,
                millisecond as nat,
            ),
        ),
{
    let name = log_file_name(file_prefix, year, month, day, hour, minute, second, millisecond);
    join_path(log_dir, name.as_str())
}

/// A file found in the log directory: its name when it is valid Unicode,
/// whether it is a regular file, and its modification time (nanoseconds
/// from the Unix epoch, negative before it) when that can be read.
#[derive(Debug, Clone)]
pub struct LogDirEntry {
    pub name: Option<String>,
    pub is_file: bool,
    pub modified: Option<i128>,
}

/// A file that counts as one of the writer's logs: a regular file named
/// `{prefix}...log` whose modification time is known.
pub open spec fn is_log_file(e: LogDirEntry, prefix: Seq<char>) -> bool {
    &&& e.is_file
    &&& e.modified is Some
    &&& (e.name matches Some(n) && starts_with(n@, prefix) && ends_with(n@, seq!['.', 'l', 'o', 'g']))
}

pub open spec fn modified_at(e: LogDirEntry) -> int {
    e.modified->Some_0 as int
}

/// Log file `j` comes before log file `k` when the logs are listed newest
/// first, equal times keeping the directory's order.
pub open spec fn listed_before(v: Seq<LogDirEntry>, prefix: Seq<char>, j: int, k: int) -> bool {
    &&& is_log_file(v[j], prefix)
    &&& (modified_at(v[j]) > modified_at(v[k]) || (modified_at(v[j]) == modified_at(v[k]) && j < k))
}

/// How many of the first `n` entries are log files listed before entry `k`.
pub open spec fn listed_before_count(v: Seq<LogDirEntry>, prefix: Seq<char>, k: int, n: int) -> nat
    decreases n,
{
    if n <= 0 {
        0
    } else {
        listed_before_count(v, prefix, k, n - 1) + if listed_before(v, prefix, n - 1, k) {
            1nat
        } else {
            0nat
        }
    }
}

/// The place of entry `k` in the newest-first list of the log files.
pub open spec fn newest_first_place(v: Seq<LogDirEntry>, prefix: Seq<char>, k: int) -> nat {
    listed_before_count(v, prefix, k, v.len() as int)
}

/// Entry `k` is a log file beyond the `max_files` newest.
pub open spec fn is_expired_log(v: Seq<LogDirEntry>, prefix: Seq<char>, max_files: nat, k: int) -> bool {
    &&& 0 <= k < v.len()
    &&& is_log_file(v[k], prefix)
    &&& newest_first_place(v, prefix, k) >= max_files
}

fn is_log_file_exec(e: &LogDirEntry, file_prefix: &str) -> (r: bool)
    ensures
        r == is_log_file(*e, file_prefix@),
{
    if !e.is_file || e.modified.is_none() {
        return false;
    }
    match &e.name {
        Some(n) => {
            if !starts_with_str(n.as_str(), file_prefix) {
                return false;
            }
            let v = chars_of(n.as_str());
            let mut ext: Vec<char> = Vec::new();
            ext.push('.');
            ext.push('l');
            ext.push('o');
            ext.push('g');
            assert(ext@ =~= seq!['.', 'l', 'o', 'g']);
            ends_with_chars(v.as_slice(), ext.as_slice())
        },
        None => false,
    }
}

fn modified_exec(e: &LogDirEntry) -> (r: i128)
    requires
        e.modified is Some,
    ensures
        r == modified_at(*e),
{
    match e.modified {
        Some(t) => t,
        None => 0,
    }
}

fn newest_first_place_exec(entries: &Vec<LogDirEntry>, file_prefix: &str, k: usize) -> (r: usize)
    requires
        k < entries.len(),
        is_log_file(entries@[k as int], file_prefix@),
    ensures
        r == newest_first_place(entries@, file_prefix@, k as int),
{
    let tk = modified_exec(&entries[k]);
    let mut count: usize = 0;
    let mut j: usize = 0;
    while j < entries.len()
        invariant
            j <= entries.len(),
            k < entries.len(),
            is_log_file(entries@[k as int], file_prefix@),
            tk == modified_at(entries@[k as int]),
            count == listed_before_count(entries@, file_prefix@, k as int, j as int),
            count <= j,
        decreases entries.len() - j,
    {
        if is_log_file_exec(&entries[j], file_prefix) {
            let tj = modified_exec(&entries[j]);
            if tj > tk || (tj == tk && j < k) {
                count = count + 1;
            }
        }
        j = j + 1;
    }
    count
}

/// The log files to remove so that only the `max_files` newest are kept,
/// as indices into `entries` in increasing order.
pub fn expired_log_files(entries: &Vec<LogDirEntry>, file_prefix: &str, max_files: usize) -> (r: Vec<usize>)
    ensures
        forall|i: int| 0 <= i < r@.len() ==> #[trigger] is_expired_log(entries@, file_prefix@, max_files as nat, r@[i] as int),
        forall|k: int| is_expired_log(entries@, file_prefix@, max_files as nat, k) ==> #[trigger] r@.contains(k as usize),
        forall|i: int, j: int| 0 <= i < j < r@.len() ==> r@[i] < r@[j],
{
    let mut r: Vec<usize> = Vec::new();
    let mut k: usize = 0;
    while k < entries.len()
        invariant
            k <= entries.len(),
            forall|i: int| 0 <= i < r@.len() ==> #[trigger] is_expired_log(entries@, file_prefix@, max_files as nat, r@[i] as int),
            forall|i: int| 0 <= i < r@.len() ==> r@[i] < k,
            forall|m: int| 0 <= m < k && is_expired_log(entries@, file_prefix@, max_files as nat, m) ==> #[trigger] r@.contains(m as usize),
            forall|i: int, j: int| 0 <= i < j < r@.len() ==> r@[i] < r@[j],
        decreases entries.len() - k,
    {
        if is_log_file_exec(&entries[k], file_prefix) {
            let place = newest_first_place_exec(entries, file_prefix, k);
            if place >= max_files {
                let ghost before = r@;
                r.push(k);
                proof {
                    assert(r@[before.len() as int] == k);
                    assert forall|m: int| 0 <= m < k + 1 && is_expired_log(entries@, file_prefix@, max_files as nat, m) implies #[trigger] r@.contains(m as usize) by {
                        if m < k {
                            assert(before.contains(m as usize));
                            let i = choose|i: int| 0 <= i < before.len() && before[i] == m as usize;
                            assert(r@[i] == m as usize);
                        } else {
                            assert(r@[before.len() as int] == m as usize);
                        }
                    }
                }
            }
        }
        k = k + 1;
    }
    r
}

/// How many of the first `n` entries are log files.
pub open spec fn log_file_count(v: Seq<LogDirEntry>, prefix: Seq<char>, n: int) -> nat
    decreases n,
{
    if n <= 0 {
        0
    } else {
        log_file_count(v, prefix, n - 1) + if is_log_file(v[n - 1], prefix) {
            1nat
        } else {
            0nat
        }
    }
}

proof fn lemma_count_monotone(v: Seq<LogDirEntry>, prefix: Seq<char>, a: int, b: int, n: int)
    requires
        forall|m: int| 0 <= m < n && #[trigger] listed_before(v, prefix, m, a) ==> listed_before(v, prefix, m, b),
    ensures
        listed_before_count(v, prefix, a, n) <= listed_before_count(v, prefix, b, n),
    decreases n,
{
    if n > 0 {
        lemma_count_monotone(v, prefix, a, b, n - 1);
    }
}

proof fn lemma_count_strictly_larger(v: Seq<LogDirEntry>, prefix: Seq<char>, a: int, b: int, n: int, w: int)
    requires
        forall|m: int| 0 <= m < n && #[trigger] listed_before(v, prefix, m, a) ==> listed_before(v, prefix, m, b),
        0 <= w < n,
        listed_before(v, prefix, w, b),
        !listed_before(v, prefix, w, a),
    ensures
        listed_before_count(v, prefix, a, n) < listed_before_count(v, prefix, b, n),
    decreases n,
{
    if w < n - 1 {
        lemma_count_strictly_larger(v, prefix, a, b, n - 1, w);
    } else {
        lemma_count_monotone(v, prefix, a, b, n - 1);
    }
}

proof fn lemma_place_below_count(v: Seq<LogDirEntry>, prefix: Seq<char>, k: int, n: int)
    requires
        0 <= k < v.len(),
        is_log_file(v[k], prefix),
    ensures
        listed_before_count(v, prefix, k, n) + (if 0 <= k < n { 1nat } else { 0nat }) <= log_file_count(v, prefix, n),
    decreases n,
{
    if n > 0 {
        lemma_place_below_count(v, prefix, k, n - 1);
    }
}

/// A removed log file is never newer than a kept one: every log file that
/// is kept was modified no earlier than every log file that is removed.
pub proof fn lemma_expired_logs_are_the_oldest(
    v: Seq<LogDirEntry>,
    prefix: Seq<char>,
    max_files: nat,
    kept: int,
    removed: int,
)
    requires
        0 <= kept < v.len(),
        is_log_file(v[kept], prefix),
        !is_expired_log(v, prefix, max_files, kept),
        is_expired_log(v, prefix, max_files, removed),
    ensures
        modified_at(v[kept]) >= modified_at(v[removed]),
{
    if modified_at(v[kept]) < modified_at(v[removed]) {
        assert forall|m: int| 0 <= m < v.len() && #[trigger] listed_before(v, prefix, m, removed) implies listed_before(
            v,
            prefix,
            m,
            kept,
        ) by {}
        lemma_count_strictly_larger(v, prefix, removed, kept, v.len() as int, removed);
    }
}

/// While the directory holds no more log files than the limit, none is
/// removed.
pub proof fn lemma_nothing_expires_within_the_limit(v: Seq<LogDirEntry>, prefix: Seq<char>, max_files: nat, k: int)
    requires
        log_file_count(v, prefix, v.len() as int) <= max_files,
    ensures
        !is_expired_log(v, prefix, max_files, k),
{
    if 0 <= k < v.len() && is_log_file(v[k], prefix) {
        lemma_place_below_count(v, prefix, k, v.len() as int);
    }
}

proof fn lemma_places_distinct(v: Seq<LogDirEntry>, prefix: Seq<char>, a: int, b: int)
    requires
        0 <= a < v.len(),
        0 <= b < v.len(),
        a != b,
        is_log_file(v[a], prefix),
        is_log_file(v[b], prefix),
    ensures
        newest_first_place(v, prefix, a) != newest_first_place(v, prefix, b),
{
    let n = v.len() as int;
    if listed_before(v, prefix, a, b) {
        assert forall|m: int| 0 <= m < n && #[trigger] listed_before(v, prefix, m, a) implies listed_before(v, prefix, m, b) by {}
        lemma_count_strictly_larger(v, prefix, a, b, n, a);
    } else {
        assert(listed_before(v, prefix, b, a));
        assert forall|m: int| 0 <= m < n && #[trigger] listed_before(v, prefix, m, b) implies listed_before(v, prefix, m, a) by {}
        lemma_count_strictly_larger(v, prefix, b, a, n, b);
    }
}

/// The log files that are kept.
pub open spec fn kept_logs(v: Seq<LogDirEntry>, prefix: Seq<char>, max_files: nat) -> Set<int> {
    Set::new(|k: int| 0 <= k < v.len() && is_log_file(v[k], prefix) && !is_expired_log(v, prefix, max_files, k))
}

/// At most `max_files` log files are kept.
pub proof fn lemma_at_most_max_files_kept(v: Seq<LogDirEntry>, prefix: Seq<char>, max_files: nat)
    ensures
        kept_logs(v, prefix, max_files).finite(),
        kept_logs(v, prefix, max_files).len() <= max_files,
{
    let kept = kept_logs(v, prefix, max_files);
    vstd::set_lib::lemma_int_range(0, v.len() as int);
    vstd::set_lib::lemma_len_subset(kept, vstd::set_lib::set_int_range(0, v.len() as int));
    let place = |k: int| newest_first_place(v, prefix, k) as int;
    assert forall|a: int, b: int| kept.contains(a) && kept.contains(b) && #[trigger] place(a) == #[trigger] place(b) implies a == b by {
        if a != b {
            lemma_places_distinct(v, prefix, a, b);
        }
    }
    assert(vstd::relations::injective_on(place, kept));
    vstd::set_lib::lemma_map_size(kept, kept.map(place), place);
    vstd::set_lib::lemma_int_range(0, max_files as int);
    assert forall|x: int| #[trigger] kept.map(place).contains(x) implies vstd::set_lib::set_int_range(0, max_files as int).contains(x) by {
        let k = choose|k: int| kept.contains(k) && place(k) == x;
    }
    vstd::set_lib::lemma_len_subset(kept.map(place), vstd::set_lib::set_int_range(0, max_files as int));
}

} // verus!
