//! Resolves a device node's major/minor numbers to the type of the TTY
//! driver that serves it, against a cached copy of the system driver table.
//!
//! The table is line-oriented text; an entry line has exactly five
//! whitespace-separated fields: symlink name, node name, major number,
//! minor range (`N` or `N-M`, decimal), and `driver_type[:extra]`. The cache
//! is rebuilt in full from the table text on a lookup miss, and a failed
//! rebuild leaves it empty rather than stale.
use vstd::prelude::*;

use crate::text::{
    lemma_scan_to_char, lines_of, parse_u32, parse_u32_str, scan_to_char, split_lines, tokenize,
    tokens,
};

verus! {

/// The fixed system path of the driver table.
pub const DRIVERS_FILE_PATH: &'static str = "/proc/tty/drivers";

/// One entry of the driver table: the majors and minors a driver serves,
/// and its type tag.
pub struct DriverInfo {
    /// Major device number supported by the driver.
    pub major: u32,
    /// Lowest minor number supported by the driver.
    pub minor_lo: u32,
    /// Highest minor number supported by the driver.
    pub minor_hi: u32,
    /// The type of the driver: "serial", "console", "system", "pty".
    pub driver_type: String,
}

/// Mathematical image of a `DriverInfo`.
pub ghost struct DriverInfoView {
    pub major: u32,
    pub minor_lo: u32,
    pub minor_hi: u32,
    pub driver_type: Seq<char>,
}

impl View for DriverInfo {
    type V = DriverInfoView;

    open spec fn view(&self) -> DriverInfoView {
        DriverInfoView {
            major: self.major,
            minor_lo: self.minor_lo,
            minor_hi: self.minor_hi,
            driver_type: self.driver_type@,
        }
    }
}

impl DeepView for DriverInfo {
    type V = DriverInfoView;

    open spec fn deep_view(&self) -> DriverInfoView {
        self.view()
    }
}

/// Why a lookup returned no driver type.
#[derive(Debug)]
pub enum FindError {
    /// No entry of the current table covers the device numbers.
    NotFound,
    /// The device metadata or the table itself could not be read.
    Io,
    /// The table text has a line that is no well-formed entry; the line is
    /// carried for diagnosis.
    Malformed { line: String },
}

/// Mathematical image of a `FindError`.
pub ghost enum FindErrorView {
    NotFound,
    Io,
    Malformed { line: Seq<char> },
}

impl View for FindError {
    type V = FindErrorView;

    open spec fn view(&self) -> FindErrorView {
        match self {
            FindError::NotFound => FindErrorView::NotFound,
            FindError::Io => FindErrorView::Io,
            FindError::Malformed { line } => FindErrorView::Malformed { line: line@ },
        }
    }
}

/// View of a lookup result.
pub open spec fn find_result_view(r: Result<String, FindError>) -> Result<
    Seq<char>,
    FindErrorView,
> {
    match r {
        Ok(t) => Ok(t@),
        Err(e) => Err(e@),
    }
}

/// The driver type carried by the fifth field: the part before the first
/// colon.
pub open spec fn colon_prefix(t: Seq<char>) -> Seq<char> {
    t.subrange(0, scan_to_char(t, ':'))
}

/// The minor range denoted by the fourth field: a single decimal number `N`,
/// standing for the range `N..=N`, or `N-M`; text after a second dash is
/// ignored.
pub open spec fn parse_minor_range(t: Seq<char>) -> Option<(u32, u32)> {
    let k = scan_to_char(t, '-');
    if k == t.len() {
        match parse_u32(t) {
            Some(v) => Some((v, v)),
            None => None,
        }
    } else {
        let rest = t.subrange(k + 1, t.len() as int);
        let m = scan_to_char(rest, '-');
        match (parse_u32(t.subrange(0, k)), parse_u32(rest.subrange(0, m))) {
            (Some(lo), Some(hi)) => Some((lo, hi)),
            _ => None,
        }
    }
}

/// What one table line denotes.
pub ghost enum LineParse {
    /// A line with no fields at all.
    Blank,
    /// A line that is no well-formed entry.
    Bad,
    /// A well-formed entry.
    Entry(DriverInfoView),
}

/// Reads one table line: blank lines carry nothing; an entry line has
/// exactly five fields with a decimal major and a decimal minor range.
pub open spec fn parse_line(line: Seq<char>) -> LineParse {
    let ts = tokens(line);
    if ts.len() == 0 {
        LineParse::Blank
    } else if ts.len() != 5 {
        LineParse::Bad
    } else {
        match (parse_u32(ts[2]), parse_minor_range(ts[3])) {
            (Some(major), Some((lo, hi))) => LineParse::Entry(
                DriverInfoView {
                    major,
                    minor_lo: lo,
                    minor_hi: hi,
                    driver_type: colon_prefix(ts[4]),
                },
            ),
            _ => LineParse::Bad,
        }
    }
}

/// What a table text denotes: its entries in line order, or the first line
/// that is no well-formed entry.
pub ghost enum TableParse {
    Entries(Seq<DriverInfoView>),
    Bad(Seq<char>),
}

pub open spec fn parse_lines(ls: Seq<Seq<char>>) -> TableParse
    decreases ls.len(),
{
    if ls.len() == 0 {
        TableParse::Entries(seq![])
    } else {
        match parse_line(ls[0]) {
            LineParse::Bad => TableParse::Bad(ls[0]),
            LineParse::Blank => parse_lines(ls.drop_first()),
            LineParse::Entry(e) => match parse_lines(ls.drop_first()) {
                TableParse::Entries(rest) => TableParse::Entries(seq![e] + rest),
                TableParse::Bad(l) => TableParse::Bad(l),
            },
        }
    }
}

pub open spec fn parse_table(s: Seq<char>) -> TableParse {
    parse_lines(lines_of(s))
}

/// Whether the entry covers the device numbers: the major matches exactly
/// and the minor falls within the inclusive range.
pub open spec fn entry_matches(e: DriverInfoView, major: u32, minor: u32) -> bool {
    e.major == major && e.minor_lo <= minor && minor <= e.minor_hi
}

/// The driver type of the first entry covering the device numbers; table
/// order breaks ties.
pub open spec fn cache_lookup(es: Seq<DriverInfoView>, major: u32, minor: u32) -> Option<
    Seq<char>,
>
    decreases es.len(),
{
    if es.len() == 0 {
        None
    } else if entry_matches(es[0], major, minor) {
        Some(es[0].driver_type)
    } else {
        cache_lookup(es.drop_first(), major, minor)
    }
}

/// Outcome of a lookup with one reload from `table` on a miss: the result
/// and the cache contents afterwards. A failed reload (unreadable table or a
/// malformed line) leaves the cache empty, never a mix of old and new
/// entries; a malformed reload surfaces as `NotFound` to the lookup that
/// triggered it, and a miss after a successful reload is a definitive
/// `NotFound`.
pub open spec fn find_by_devnum_spec(
    cache: Seq<DriverInfoView>,
    major: u32,
    minor: u32,
    table: Option<Seq<char>>,
) -> (Result<Seq<char>, FindErrorView>, Seq<DriverInfoView>) {
    match cache_lookup(cache, major, minor) {
        Some(dt) => (Ok(dt), cache),
        None => match table {
            None => (Err(FindErrorView::Io), seq![]),
            Some(t) => match parse_table(t) {
                TableParse::Bad(_) => (Err(FindErrorView::NotFound), seq![]),
                TableParse::Entries(es) => match cache_lookup(es, major, minor) {
                    Some(dt) => (Ok(dt), es),
                    None => (Err(FindErrorView::NotFound), es),
                },
            },
        },
    }
}

/// Extracts the driver type from the fifth field of a table line.
fn colon_prefix_str(s: &str) -> (r: String)
    ensures
        r@ == colon_prefix(s@),
{
    let n = s.unicode_len();
    let mut k: usize = 0;
    while k < n && s.get_char(k) != ':'
        invariant
            0 <= k <= n,
            n == s@.len(),
            forall|i: int| 0 <= i < k ==> s@[i] != ':',
        decreases n - k,
    {
        k += 1;
    }
    proof {
        lemma_scan_to_char(s@, ':', k as int);
    }
    String::from_str(s.substring_char(0, k))
}

/// Reads a minor-range field.
fn parse_minor_range_str(s: &str) -> (r: Option<(u32, u32)>)
    ensures
        r == parse_minor_range(s@),
{
    let n = s.unicode_len();
    let mut k: usize = 0;
    while k < n && s.get_char(k) != '-'
        invariant
            0 <= k <= n,
            n == s@.len(),
            forall|i: int| 0 <= i < k ==> s@[i] != '-',
        decreases n - k,
    {
        k += 1;
    }
    proof {
        lemma_scan_to_char(s@, '-', k as int);
    }
    if k == n {
        match parse_u32_str(s) {
            Some(v) => Some((v, v)),
            None => None,
        }
    } else {
        let mut m = k + 1;
        while m < n && s.get_char(m) != '-'
            invariant
                k < m <= n,
                n == s@.len(),
                forall|i: int| k < i < m ==> s@[i] != '-',
            decreases n - m,
        {
            m += 1;
        }
        let lo_str = s.substring_char(0, k);
        let hi_str = s.substring_char(k + 1, m);
        proof {
            let rest = s@.subrange(k as int + 1, n as int);
            assert forall|i: int| 0 <= i < m - k - 1 implies rest[i] != '-' by {
                assert(rest[i] == s@[k as int + 1 + i]);
            }
            lemma_scan_to_char(rest, '-', m - k - 1);
            assert(rest.subrange(0, m - k - 1) =~= s@.subrange(k as int + 1, m as int));
        }
        match (parse_u32_str(lo_str), parse_u32_str(hi_str)) {
            (Some(lo), Some(hi)) => Some((lo, hi)),
            _ => None,
        }
    }
}

/// What the line parser returns.
pub enum ParsedLine {
    /// A line with no fields at all.
    Blank,
    /// A line that is no well-formed entry.
    Bad,
    /// A well-formed entry.
    Entry(DriverInfo),
}

/// Reads one line of the driver table.
pub fn parse_driver_line(line: &str) -> (r: ParsedLine)
    ensures
        match r {
            ParsedLine::Blank => parse_line(line@) is Blank,
            ParsedLine::Bad => parse_line(line@) is Bad,
            ParsedLine::Entry(e) => parse_line(line@) == LineParse::Entry(e@),
        },
{
    let ts = tokenize(line);
    if ts.len() == 0 {
        return ParsedLine::Blank;
    }
    if ts.len() != 5 {
        return ParsedLine::Bad;
    }
    let major = match parse_u32_str(ts[2].as_str()) {
        Some(v) => v,
        None => {
            return ParsedLine::Bad;
        },
    };
    let (minor_lo, minor_hi) = match parse_minor_range_str(ts[3].as_str()) {
        Some(range) => range,
        None => {
            return ParsedLine::Bad;
        },
    };
    let driver_type = colon_prefix_str(ts[4].as_str());
    ParsedLine::Entry(DriverInfo { major, minor_lo, minor_hi, driver_type })
}

/// Reads a whole driver table text into entries, in line order; the first
/// line that is no well-formed entry fails the read and is reported.
pub fn read_drivers_from_table(contents: &str) -> (r: Result<Vec<DriverInfo>, FindError>)
    ensures
        match r {
            Ok(es) => parse_table(contents@) == TableParse::Entries(es.deep_view()),
            Err(e) => match e@ {
                FindErrorView::Malformed { line } => parse_table(contents@) == TableParse::Bad(
                    line,
                ),
                _ => false,
            },
        },
{
    let lines = split_lines(contents);
    let ghost ls = lines.deep_view();
    let mut entries: Vec<DriverInfo> = Vec::new();
    let mut i: usize = 0;
    proof {
        assert(ls.subrange(0, ls.len() as int) =~= ls);
        assert(entries.deep_view() =~~= Seq::<DriverInfoView>::empty());
    }
    while i < lines.len()
        invariant
            0 <= i <= lines.len(),
            ls == lines.deep_view(),
            ls == lines_of(contents@),
            parse_lines(ls) == (match parse_lines(ls.subrange(i as int, ls.len() as int)) {
                TableParse::Entries(rest) => TableParse::Entries(entries.deep_view() + rest),
                TableParse::Bad(l) => TableParse::Bad(l),
            }),
        decreases lines.len() - i,
    {
        let ghost rest = ls.subrange(i as int, ls.len() as int);
        proof {
            assert(rest[0] == ls[i as int]);
            assert(rest.drop_first() =~= ls.subrange(i as int + 1, ls.len() as int));
        }
        match parse_driver_line(lines[i].as_str()) {
            ParsedLine::Blank => {},
            ParsedLine::Bad => {
                let bad = lines[i].clone();
                proof {
                    assert(ls[i as int] == lines@[i as int]@);
                    assert(parse_line(rest[0]) is Bad);
                    assert(parse_lines(rest) == TableParse::Bad(rest[0]));
                    assert(parse_lines(ls) == TableParse::Bad(ls[i as int]));
                }
                return Err(FindError::Malformed { line: bad });
            },
            ParsedLine::Entry(e) => {
                let ghost pre = entries.deep_view();
                entries.push(e);
                proof {
                    assert(entries.deep_view() =~~= pre.push(e@));
                    assert forall|es2: Seq<DriverInfoView>|
                        pre + (seq![e@] + es2) =~~= entries.deep_view() + es2 by {}
                }
            },
        }
        i += 1;
    }
    proof {
        assert(ls.subrange(i as int, ls.len() as int) =~= Seq::<Seq<char>>::empty());
        assert(entries.deep_view() + Seq::<DriverInfoView>::empty() =~~= entries.deep_view());
    }
    Ok(entries)
}

/// The major number encoded in a `dev_t` value, as the kernel packs it.
pub open spec fn major_of(dev: u64) -> u32 {
    (((dev & 0x0000_0000_000f_ff00u64) >> 8u64) | ((dev & 0xffff_f000_0000_0000u64) >> 32u64))
        as u32
}

/// The minor number encoded in a `dev_t` value, as the kernel packs it.
pub open spec fn minor_of(dev: u64) -> u32 {
    ((dev & 0x0000_0000_0000_00ffu64) | ((dev & 0x0000_0fff_fff0_0000u64) >> 12u64)) as u32
}

/// Relies on `libc::major`: selects the major-number bits of a `dev_t`
/// (bits 8..20 and 44..64, joined).
#[verifier::external_body]
fn dev_major(dev: u64) -> (r: u32)
    ensures
        r == major_of(dev),
{
    libc::major(dev)
}

/// Relies on `libc::minor`: selects the minor-number bits of a `dev_t`
/// (bits 0..8 and 20..44, joined).
#[verifier::external_body]
fn dev_minor(dev: u64) -> (r: u32)
    ensures
        r == minor_of(dev),
{
    libc::minor(dev)
}

/// Unpacks a device-node `rdev` value, as filesystem metadata reports it,
/// into the major and minor numbers.
pub fn get_devnum(rdev: u64) -> (r: (u32, u32))
    ensures
        r.0 == major_of(rdev),
        r.1 == minor_of(rdev),
{
    (dev_major(rdev), dev_minor(rdev))
}

/// View of the optional table text handed to a lookup.
pub open spec fn opt_str_view(t: Option<&str>) -> Option<Seq<char>> {
    match t {
        Some(s) => Some(s@),
        None => None,
    }
}

/// Outcome of a full resolution: `rdev` is the stat outcome on the device
/// node (`None` where its metadata could not be read), `table` the current
/// driver-table text (`None` where the table could not be read).
pub open spec fn find_spec(
    cache: Seq<DriverInfoView>,
    rdev: Option<u64>,
    table: Option<Seq<char>>,
) -> (Result<Seq<char>, FindErrorView>, Seq<DriverInfoView>) {
    match rdev {
        None => (Err(FindErrorView::Io), cache),
        Some(d) => find_by_devnum_spec(cache, major_of(d), minor_of(d), table),
    }
}

/// Finds the type of the TTY driver behind a device node.
pub trait DriverTypeFinder {
    /// The driver-table entries the finder currently holds.
    spec fn cache(&self) -> Seq<DriverInfoView>;

    /// Resolves a device node, given the stat outcome on its path and the
    /// current driver-table text for the one reload a miss triggers.
    fn find(&mut self, rdev: Option<u64>, table: Option<&str>) -> (r: Result<String, FindError>)
        ensures
            ({
                let (res, c2) = find_spec(old(self).cache(), rdev, opt_str_view(table));
                find_result_view(r) == res && final(self).cache() == c2
            }),
    ;
}

/// Implements `DriverTypeFinder` over a cached copy of the system driver
/// table.
pub struct DriverTypeFinderImpl {
    /// The path of the file with drivers info, i.e. /proc/tty/drivers
    /// (except for tests); the caller reads it there on a reload.
    drivers_file_path: String,
    /// Cached entries of the driver table, rebuilt in full on a miss.
    drivers_cache: Vec<DriverInfo>,
}

impl DriverTypeFinderImpl {
    /// The entries currently cached.
    pub closed spec fn cache_entries(&self) -> Seq<DriverInfoView> {
        self.drivers_cache.deep_view()
    }

    /// The path of the table file this finder describes.
    pub closed spec fn path(&self) -> Seq<char> {
        self.drivers_file_path@
    }

    /// A finder over the system driver table, starting with an empty cache.
    pub fn new() -> (r: Self)
        ensures
            r.cache_entries() == Seq::<DriverInfoView>::empty(),
            r.path() == DRIVERS_FILE_PATH@,
    {
        Self::new_from_file(String::from_str(DRIVERS_FILE_PATH))
    }

    /// A finder over the table file at the given path, starting with an
    /// empty cache.
    pub fn new_from_file(drivers_file_path: String) -> (r: Self)
        ensures
            r.cache_entries() == Seq::<DriverInfoView>::empty(),
            r.path() == drivers_file_path@,
    {
        let r = DriverTypeFinderImpl { drivers_file_path, drivers_cache: Vec::new() };
        proof {
            assert(r.drivers_cache.deep_view() =~= Seq::<DriverInfoView>::empty());
        }
        r
    }

    /// The path of the table file to read on a reload.
    pub fn drivers_file_path(&self) -> (r: &String)
        ensures
            r@ == self.path(),
    {
        &self.drivers_file_path
    }

    /// Looks the device numbers up in the cache alone: the first entry in
    /// table order whose major matches and whose minor range holds `minor`
    /// wins.
    pub fn find_in_cache(&self, major: u32, minor: u32) -> (r: Result<String, FindError>)
        ensures
            match r {
                Ok(t) => cache_lookup(self.cache_entries(), major, minor) == Some(t@),
                Err(e) => e is NotFound && cache_lookup(self.cache_entries(), major, minor)
                    is None,
            },
    {
        let n = self.drivers_cache.len();
        let mut i: usize = 0;
        proof {
            assert(self.cache_entries().subrange(0, n as int) =~= self.cache_entries());
        }
        while i < n
            invariant
                0 <= i <= n,
                n == self.drivers_cache.len(),
                cache_lookup(self.cache_entries(), major, minor) == cache_lookup(
                    self.cache_entries().subrange(i as int, n as int),
                    major,
                    minor,
                ),
            decreases n - i,
        {
            let ghost rest = self.cache_entries().subrange(i as int, n as int);
            proof {
                assert(rest[0] == self.cache_entries()[i as int]);
                assert(rest.drop_first() =~= self.cache_entries().subrange(
                    i as int + 1,
                    n as int,
                ));
            }
            let e = &self.drivers_cache[i];
            proof {
                assert(e@ == self.cache_entries()[i as int]);
            }
            if e.major == major && e.minor_lo <= minor && minor <= e.minor_hi {
                proof {
                    assert(entry_matches(rest[0], major, minor));
                }
                return Ok(e.driver_type.clone());
            }
            proof {
                assert(!entry_matches(rest[0], major, minor));
            }
            i += 1;
        }
        proof {
            assert(self.cache_entries().subrange(i as int, n as int)
                =~= Seq::<DriverInfoView>::empty());
        }
        Err(FindError::NotFound)
    }

    /// Looks the device numbers up; on a miss, rebuilds the cache from
    /// `table` (the current text of the table file, `None` where it could
    /// not be read) and retries exactly once. A second miss is a definitive
    /// `NotFound`, as is a malformed rebuild; a failed rebuild of either
    /// kind leaves the cache empty.
    pub fn find_by_devnum(&mut self, major: u32, minor: u32, table: Option<&str>) -> (r: Result<
        String,
        FindError,
    >)
        ensures
            ({
                let (res, c2) = find_by_devnum_spec(
                    old(self).cache_entries(),
                    major,
                    minor,
                    opt_str_view(table),
                );
                find_result_view(r) == res && final(self).cache_entries() == c2
            }),
            final(self).path() == old(self).path(),
    {
        match self.find_in_cache(major, minor) {
            Ok(t) => Ok(t),
            Err(_) => {
                // Discard the cache before the reload attempt: a failed
                // reload must not leave entries known to be stale.
                self.drivers_cache = Vec::new();
                proof {
                    assert(self.cache_entries() =~= Seq::<DriverInfoView>::empty());
                }
                match table {
                    None => Err(FindError::Io),
                    Some(contents) => match read_drivers_from_table(contents) {
                        Err(_) => Err(FindError::NotFound),
                        Ok(es) => {
                            self.drivers_cache = es;
                            self.find_in_cache(major, minor)
                        },
                    },
                }
            },
        }
    }
}

impl DriverTypeFinder for DriverTypeFinderImpl {
    closed spec fn cache(&self) -> Seq<DriverInfoView> {
        self.drivers_cache.deep_view()
    }

    fn find(&mut self, rdev: Option<u64>, table: Option<&str>) -> (r: Result<String, FindError>) {
        match rdev {
            None => Err(FindError::Io),
            Some(d) => {
                let (major, minor) = get_devnum(d);
                self.find_by_devnum(major, minor, table)
            },
        }
    }
}

/// Law: a cache lookup returns the driver type of the entry whose major
/// matches and whose minor range holds the minor, where that entry is
/// unique.
pub proof fn lemma_find_follows_table(es: Seq<DriverInfoView>, major: u32, minor: u32, i: int)
    requires
        0 <= i < es.len(),
        entry_matches(es[i], major, minor),
        forall|j: int| 0 <= j < es.len() && j != i ==> !entry_matches(es[j], major, minor),
    ensures
        cache_lookup(es, major, minor) == Some(es[i].driver_type),
    decreases es.len(),
{
    if i > 0 {
        assert(!entry_matches(es[0], major, minor));
        assert forall|j: int|
            0 <= j < es.drop_first().len() && j != i - 1 implies !entry_matches(
            es.drop_first()[j],
            major,
            minor,
        ) by {
            assert(es.drop_first()[j] == es[j + 1]);
        }
        lemma_find_follows_table(es.drop_first(), major, minor, i - 1);
    }
}

/// Law: where no entry covers the device numbers, the lookup yields
/// nothing.
pub proof fn lemma_find_miss(es: Seq<DriverInfoView>, major: u32, minor: u32)
    requires
        forall|j: int| 0 <= j < es.len() ==> !entry_matches(es[j], major, minor),
    ensures
        cache_lookup(es, major, minor) is None,
    decreases es.len(),
{
    if es.len() > 0 {
        assert forall|j: int| 0 <= j < es.drop_first().len() implies !entry_matches(
            es.drop_first()[j],
            major,
            minor,
        ) by {
            assert(es.drop_first()[j] == es[j + 1]);
        }
        lemma_find_miss(es.drop_first(), major, minor);
    }
}

/// Law: over a table text with well-formed lines, a lookup starting from an
/// empty cache returns the driver type of the entry whose major matches and
/// whose minor range holds the minor, where that entry is unique.
pub proof fn lemma_find_follows_table_text(
    t: Seq<char>,
    major: u32,
    minor: u32,
    es: Seq<DriverInfoView>,
    i: int,
)
    requires
        parse_table(t) == TableParse::Entries(es),
        0 <= i < es.len(),
        entry_matches(es[i], major, minor),
        forall|j: int| 0 <= j < es.len() && j != i ==> !entry_matches(es[j], major, minor),
    ensures
        find_by_devnum_spec(Seq::<DriverInfoView>::empty(), major, minor, Some(t)) == (
            Ok::<Seq<char>, FindErrorView>(es[i].driver_type),
            es,
        ),
{
    lemma_find_follows_table(es, major, minor, i);
}

/// Law: over a table text with well-formed lines none of whose entries
/// covers the device numbers, a lookup fails with `NotFound`.
pub proof fn lemma_find_miss_on_table_text(
    t: Seq<char>,
    major: u32,
    minor: u32,
    es: Seq<DriverInfoView>,
)
    requires
        parse_table(t) == TableParse::Entries(es),
        forall|j: int| 0 <= j < es.len() ==> !entry_matches(es[j], major, minor),
    ensures
        find_by_devnum_spec(Seq::<DriverInfoView>::empty(), major, minor, Some(t)) == (
            Err::<Seq<char>, FindErrorView>(FindErrorView::NotFound),
            es,
        ),
{
    lemma_find_miss(es, major, minor);
}

/// Law: a reload triggered by a miss either replaces the cache with exactly
/// the entries the new table text denotes or leaves it empty; the cache
/// afterwards is never a mix of old and new entries.
pub proof fn lemma_reload_all_or_nothing(
    cache: Seq<DriverInfoView>,
    major: u32,
    minor: u32,
    table: Option<Seq<char>>,
)
    requires
        cache_lookup(cache, major, minor) is None,
    ensures
        ({
            let (res, c2) = find_by_devnum_spec(cache, major, minor, table);
            ||| (table is Some && parse_table(table.unwrap()) == TableParse::Entries(c2))
            ||| c2 =~= Seq::<DriverInfoView>::empty()
        }),
{
}

} // verus!
