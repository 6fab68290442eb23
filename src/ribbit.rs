//! The version server's responses: a checksum-terminated MIME message whose
//! first part is a table of products, of a product's versions or of its
//! CDNs.
use vstd::prelude::*;

use crate::grammar::{
    char_at, dec32_at, dec32_exec, has_at, has_at_exec, hex128_at, hex128_exec, is_not_at,
    is_not_exec, opt_hex128_at, run_end, run_end_exec,
};
use crate::info::string_views;
use crate::paths::hex_char;
use crate::text::{chars_of, string_of};

verus! {

/// Why a response could not be read.
#[derive(Debug, Clone, Copy, PartialEq, Eq, Structural)]
pub enum RibbitError {
    /// Too short to hold the checksum trailer.
    Truncated,
    /// The trailer does not start with `Checksum: `.
    MissingChecksum,
    /// The trailer's checksum is not the SHA-256 of the message.
    BadChecksum,
    /// The message has no text part.
    Mime,
    /// The text part does not follow the table's grammar.
    Syntax,
}

/// What the summary lists for one product.
#[derive(Debug, Clone, Copy, PartialEq, Eq, Structural)]
pub struct SummaryEntry {
    pub seqn: Option<u32>,
    pub cdn: Option<u32>,
    pub bgdl: Option<u32>,
}

/// The product summary: its sequence number and an entry per product, in the
/// order in which products first appear.
#[derive(Debug, PartialEq, Eq)]
pub struct Summary {
    pub seqn: u32,
    pub entries: Vec<(String, SummaryEntry)>,
}

/// One region's row of a versions table.
#[derive(Debug, PartialEq, Eq)]
pub struct VersionsEntry {
    pub region: String,
    pub build_config: u128,
    pub cdn_config: u128,
    pub key_config: Option<u128>,
    pub build_id: u32,
    pub name: String,
    pub product_config: Option<u128>,
}

/// A versions table: one entry per region; a later row for a region
/// replaces the earlier one in its place.
#[derive(Debug, PartialEq, Eq)]
pub struct Versions {
    pub seqn: u32,
    pub entries: Vec<VersionsEntry>,
}

/// One region's row of a CDN table.
#[derive(Debug, PartialEq, Eq)]
pub struct CDNsEntry {
    pub region: String,
    pub path: String,
    pub hosts: Vec<String>,
    pub servers: Vec<String>,
    pub config_path: String,
}

/// A CDN table: one entry per region; a later row for a region replaces the
/// earlier one in its place.
#[derive(Debug, PartialEq, Eq)]
pub struct CDNs {
    pub seqn: u32,
    pub entries: Vec<CDNsEntry>,
}

/// A summary entry with one more sequence number: 0 the product's own, 1
/// its CDN's, 2 its background download's.
pub open spec fn set_flag(e: SummaryEntry, kind: nat, n: u32) -> SummaryEntry {
    if kind == 0 {
        SummaryEntry { seqn: Some(n), ..e }
    } else if kind == 1 {
        SummaryEntry { cdn: Some(n), ..e }
    } else {
        SummaryEntry { bgdl: Some(n), ..e }
    }
}

/// The position of the first pair whose key is `k`.
pub open spec fn find_key<V>(acc: Seq<(Seq<char>, V)>, k: Seq<char>, i: int) -> Option<int>
    decreases acc.len() - i,
{
    if i < 0 || i >= acc.len() {
        None
    } else if acc[i].0 == k {
        Some(i)
    } else {
        find_key(acc, k, i + 1)
    }
}

/// `(key, value)` stored in place of the pair with the same key, or added
/// at the end.
pub open spec fn upsert<V>(acc: Seq<(Seq<char>, V)>, k: Seq<char>, v: V) -> Seq<(Seq<char>, V)> {
    match find_key(acc, k, 0) {
        Some(i) => acc.update(i, (k, v)),
        None => acc.push((k, v)),
    }
}

pub open spec fn no_flags() -> SummaryEntry {
    SummaryEntry { seqn: None, cdn: None, bgdl: None }
}

/// The `## seqn = N` line at `i`.
pub open spec fn seqn_line(s: Seq<char>, i: int) -> Option<(u32, int)> {
    if !has_at(s, i, "## seqn = "@) {
        None
    } else {
        match dec32_at(s, i + "## seqn = "@.len()) {
            None => None,
            Some((v, j)) => if char_at(s, j, '\n') {
                Some((v, j + 1))
            } else {
                None
            },
        }
    }
}

/// The flag after the second bar of a summary row and where it ends.
pub open spec fn flag_at(s: Seq<char>, i: int) -> (nat, int) {
    if has_at(s, i, "bgdl"@) {
        (2, i + "bgdl"@.len())
    } else if has_at(s, i, "cdn"@) {
        (1, i + "cdn"@.len())
    } else {
        (0, i)
    }
}

/// One summary row: product, sequence number, flag.
pub open spec fn summary_row(s: Seq<char>, i: int) -> Option<(Seq<char>, u32, nat, int)> {
    match is_not_at(s, i, '|', '|') {
        None => None,
        Some((name, j)) => if !char_at(s, j, '|') {
            None
        } else {
            match dec32_at(s, j + 1) {
                None => None,
                Some((n, k)) => if !char_at(s, k, '|') {
                    None
                } else {
                    let (kind, m) = flag_at(s, k + 1);
                    if char_at(s, m, '\n') {
                        Some((name, n, kind, m + 1))
                    } else {
                        None
                    }
                },
            }
        },
    }
}

pub open spec fn summary_rows(s: Seq<char>, i: int, acc: Seq<(Seq<char>, SummaryEntry)>) -> Option<
    Seq<(Seq<char>, SummaryEntry)>,
>
    decreases s.len() - i,
{
    if i >= s.len() {
        Some(acc)
    } else {
        match summary_row(s, i) {
            None => None,
            Some((name, n, kind, j)) => if j <= i {
                None
            } else {
                let old_entry = match find_key(acc, name, 0) {
                    Some(p) => acc[p].1,
                    None => no_flags(),
                };
                summary_rows(s, j, upsert(acc, name, set_flag(old_entry, kind, n)))
            },
        }
    }
}

/// A summary table: its fixed header line, the sequence number line, rows.
pub open spec fn summary_spec(s: Seq<char>) -> Option<(u32, Seq<(Seq<char>, SummaryEntry)>)> {
    let header = "Product!STRING:0|Seqn!DEC:4|Flags!STRING:0\n"@;
    if !has_at(s, 0, header) {
        None
    } else {
        match seqn_line(s, header.len() as int) {
            None => None,
            Some((seqn, j)) => match summary_rows(s, j, Seq::empty()) {
                None => None,
                Some(es) => Some((seqn, es)),
            },
        }
    }
}

pub open spec fn summary_entries_view(v: Seq<(String, SummaryEntry)>) -> Seq<(Seq<char>, SummaryEntry)> {
    v.map_values(|p: (String, SummaryEntry)| (p.0@, p.1))
}

fn find_name<V>(acc: &Vec<(String, V)>, name: &String) -> (r: Option<usize>)
    ensures
        ({
            let keys = acc@.map_values(|p: (String, V)| (p.0@, 0int));
            match r {
                Some(i) => i < acc@.len() && find_key(keys, name@, 0) == Some(i as int),
                None => find_key(keys, name@, 0) is None,
            }
        }),
{
    let ghost keys = acc@.map_values(|p: (String, V)| (p.0@, 0int));
    let mut i: usize = 0;
    while i < acc.len()
        invariant
            i <= acc@.len(),
            keys == acc@.map_values(|p: (String, V)| (p.0@, 0int)),
            find_key(keys, name@, 0) == find_key(keys, name@, i as int),
        decreases acc@.len() - i,
    {
        if acc[i].0 == *name {
            return Some(i);
        }
        i = i + 1;
    }
    None
}

pub proof fn lemma_find_key_same<V, W>(a: Seq<(Seq<char>, V)>, b: Seq<(Seq<char>, W)>, k: Seq<char>, i: int)
    requires
        a.len() == b.len(),
        forall|j: int| 0 <= j < a.len() ==> #[trigger] a[j].0 == b[j].0,
    ensures
        find_key(a, k, i) == find_key(b, k, i),
    decreases a.len() - i,
{
    if 0 <= i < a.len() {
        lemma_find_key_same(a, b, k, i + 1);
    }
}

/// Parses the text of a summary response.
pub fn parse_summary(text: &str) -> (r: Option<Summary>)
    ensures
        match summary_spec(text@) {
            Some((seqn, es)) => r is Some && r->0.seqn == seqn && summary_entries_view(
                r->0.entries@,
            ) == es,
            None => r is None,
        },
{
    let s = chars_of(text);
    let header = chars_of("Product!STRING:0|Seqn!DEC:4|Flags!STRING:0\n");
    if !has_at_exec(s.as_slice(), 0, header.as_slice()) {
        return None;
    }
    let (seqn, mut i) = match seqn_line_exec(s.as_slice(), header.len()) {
        None => {
            return None;
        },
        Some(p) => p,
    };
    let mut entries: Vec<(String, SummaryEntry)> = Vec::new();
    let bgdl = chars_of("bgdl");
    let cdn = chars_of("cdn");
    let n = s.len();
    assert(summary_entries_view(entries@) =~= Seq::<(Seq<char>, SummaryEntry)>::empty());
    while i < n
        invariant
            n == s@.len(),
            s@ == text@,
            i <= n,
            bgdl@ == "bgdl"@,
            cdn@ == "cdn"@,
            summary_spec(text@) == match summary_rows(s@, i as int, summary_entries_view(entries@)) {
                None => None,
                Some(es) => Some((seqn, es)),
            },
        decreases n - i,
    {
        let (name, j) = match is_not_exec(s.as_slice(), i, '|', '|') {
            None => {
                return None;
            },
            Some(p) => p,
        };
        if j >= n || s[j] != '|' {
            return None;
        }
        let (num, k) = match dec32_exec(s.as_slice(), j + 1) {
            None => {
                return None;
            },
            Some(p) => p,
        };
        if k >= n || s[k] != '|' {
            return None;
        }
        let (kind, m): (u8, usize) = if has_at_exec(s.as_slice(), k + 1, bgdl.as_slice()) {
            (2, k + 1 + bgdl.len())
        } else if has_at_exec(s.as_slice(), k + 1, cdn.as_slice()) {
            (1, k + 1 + cdn.len())
        } else {
            (0, k + 1)
        };
        assert(flag_at(s@, k + 1) == (kind as nat, m as int));
        if m >= n || s[m] != '\n' {
            return None;
        }
        let key = string_of(name.as_slice());
        let ghost before = summary_entries_view(entries@);
        proof {
            lemma_find_key_same(before, entries@.map_values(|p: (String, SummaryEntry)| (p.0@, 0int)), key@, 0);
        }
        match find_name(&entries, &key) {
            Some(p) => {
                let e = entries[p].1;
                let updated = if kind == 0 {
                    SummaryEntry { seqn: Some(num), ..e }
                } else if kind == 1 {
                    SummaryEntry { cdn: Some(num), ..e }
                } else {
                    SummaryEntry { bgdl: Some(num), ..e }
                };
                entries.remove(p);
                entries.insert(p, (key, updated));
                assert(summary_entries_view(entries@) =~= upsert(before, name@, updated));
            },
            None => {
                let e = SummaryEntry { seqn: None, cdn: None, bgdl: None };
                let updated = if kind == 0 {
                    SummaryEntry { seqn: Some(num), ..e }
                } else if kind == 1 {
                    SummaryEntry { cdn: Some(num), ..e }
                } else {
                    SummaryEntry { bgdl: Some(num), ..e }
                };
                entries.push((key, updated));
                assert(summary_entries_view(entries@) =~= upsert(before, name@, updated));
            },
        }
        i = m + 1;
    }
    Some(Summary { seqn, entries })
}

fn seqn_line_exec(s: &[char], i: usize) -> (r: Option<(u32, usize)>)
    requires
        i <= s@.len(),
    ensures
        match seqn_line(s@, i as int) {
            Some((v, j)) => match r {
                Some(p) => p.0 == v && p.1 == j && j <= s@.len(),
                None => false,
            },
            None => r is None,
        },
{
    let lit = chars_of("## seqn = ");
    let _n = s.len();
    if !has_at_exec(s, i, lit.as_slice()) {
        return None;
    }
    match dec32_exec(s, i + lit.len()) {
        None => None,
        Some((v, j)) => {
            if j < s.len() && s[j] == '\n' {
                Some((v, j + 1))
            } else {
                None
            }
        },
    }
}

/// A versions row as values: region, build config, CDN config, key config,
/// build id, version name, product config.
pub type VersionsRow = (Seq<char>, u128, u128, Option<u128>, u32, Seq<char>, Option<u128>);

pub open spec fn versions_entry_view(e: VersionsEntry) -> VersionsRow {
    (e.region@, e.build_config, e.cdn_config, e.key_config, e.build_id, e.name@, e.product_config)
}

pub open spec fn versions_entries_view(v: Seq<VersionsEntry>) -> Seq<VersionsRow> {
    v.map_values(|e: VersionsEntry| versions_entry_view(e))
}

/// Where the line after the first one starts.
pub open spec fn after_first_line(s: Seq<char>) -> Option<int> {
    let j = run_end(s, 0, '\n', '\n');
    if char_at(s, j, '\n') {
        Some(j + 1)
    } else {
        None
    }
}

/// A field followed by a bar: the position after the bar.
pub open spec fn bar_after(s: Seq<char>, j: int) -> Option<int> {
    if char_at(s, j, '|') {
        Some(j + 1)
    } else {
        None
    }
}

/// One versions row.
pub open spec fn versions_row(s: Seq<char>, i: int) -> Option<(VersionsRow, int)> {
    match is_not_at(s, i, '|', '|') {
        None => None,
        Some((region, a)) => if !char_at(s, a, '|') {
            None
        } else {
            match hex128_at(s, a + 1) {
                None => None,
                Some((build, b)) => if !char_at(s, b, '|') {
                    None
                } else {
                    match hex128_at(s, b + 1) {
                        None => None,
                        Some((cdn, c)) => if !char_at(s, c, '|') {
                            None
                        } else {
                            let (key, d) = opt_hex128_at(s, c + 1);
                            if !char_at(s, d, '|') {
                                None
                            } else {
                                match dec32_at(s, d + 1) {
                                    None => None,
                                    Some((id, e)) => if !char_at(s, e, '|') {
                                        None
                                    } else {
                                        match is_not_at(s, e + 1, '|', '|') {
                                            None => None,
                                            Some((name, f)) => if !char_at(s, f, '|') {
                                                None
                                            } else {
                                                let (product, g) = opt_hex128_at(s, f + 1);
                                                if char_at(s, g, '\n') {
                                                    Some(((region, build, cdn, key, id, name, product), g + 1))
                                                } else {
                                                    None
                                                }
                                            },
                                        }
                                    },
                                }
                            }
                        },
                    }
                },
            }
        },
    }
}

/// The position of the first versions row whose region is `k`.
pub open spec fn find_vregion(acc: Seq<VersionsRow>, k: Seq<char>, i: int) -> Option<int>
    decreases acc.len() - i,
{
    if i < 0 || i >= acc.len() {
        None
    } else if acc[i].0 == k {
        Some(i)
    } else {
        find_vregion(acc, k, i + 1)
    }
}

/// A versions row stored in place of the row for the same region, or added.
pub open spec fn replace_vregion(acc: Seq<VersionsRow>, v: VersionsRow) -> Seq<VersionsRow> {
    match find_vregion(acc, v.0, 0) {
        Some(i) => acc.update(i, v),
        None => acc.push(v),
    }
}

/// The position of the first CDN row whose region is `k`.
pub open spec fn find_cregion(acc: Seq<CDNsRow>, k: Seq<char>, i: int) -> Option<int>
    decreases acc.len() - i,
{
    if i < 0 || i >= acc.len() {
        None
    } else if acc[i].0 == k {
        Some(i)
    } else {
        find_cregion(acc, k, i + 1)
    }
}

/// A CDN row stored in place of the row for the same region, or added.
pub open spec fn replace_cregion(acc: Seq<CDNsRow>, v: CDNsRow) -> Seq<CDNsRow> {
    match find_cregion(acc, v.0, 0) {
        Some(i) => acc.update(i, v),
        None => acc.push(v),
    }
}

pub open spec fn versions_rows(s: Seq<char>, i: int, acc: Seq<VersionsRow>) -> Option<Seq<VersionsRow>>
    decreases s.len() - i,
{
    if i >= s.len() {
        Some(acc)
    } else {
        match versions_row(s, i) {
            None => None,
            Some((row, j)) => if j <= i {
                None
            } else {
                versions_rows(s, j, replace_vregion(acc, row))
            },
        }
    }
}

/// A versions table: any first line, the sequence number line, rows.
pub open spec fn versions_spec(s: Seq<char>) -> Option<(u32, Seq<VersionsRow>)> {
    match after_first_line(s) {
        None => None,
        Some(h) => match seqn_line(s, h) {
            None => None,
            Some((seqn, j)) => match versions_rows(s, j, Seq::empty()) {
                None => None,
                Some(es) => Some((seqn, es)),
            },
        },
    }
}

fn first_line_end(s: &[char]) -> (r: Option<usize>)
    ensures
        match after_first_line(s@) {
            Some(j) => match r {
                Some(k) => k == j && j <= s@.len(),
                None => false,
            },
            None => r is None,
        },
{
    let j = run_end_exec(s, 0, '\n', '\n');
    if j < s.len() && s[j] == '\n' {
        Some(j + 1)
    } else {
        None
    }
}

fn opt_hex128_exec(s: &[char], i: usize) -> (r: (Option<u128>, usize))
    requires
        i <= s@.len(),
    ensures
        r.0 == opt_hex128_at(s@, i as int).0,
        r.1 == opt_hex128_at(s@, i as int).1,
        r.1 <= s@.len(),
{
    match hex128_exec(s, i) {
        Some((v, j)) => (Some(v), j),
        None => (None, i),
    }
}

fn bar_exec(s: &[char], j: usize) -> (r: Option<usize>)
    requires
        j <= s@.len(),
    ensures
        match bar_after(s@, j as int) {
            Some(k) => match r {
                Some(m) => m == k && k <= s@.len(),
                None => false,
            },
            None => r is None,
        },
{
    if j < s.len() && s[j] == '|' {
        Some(j + 1)
    } else {
        None
    }
}

fn versions_row_exec(s: &[char], i: usize) -> (r: Option<(VersionsEntry, usize)>)
    requires
        i <= s@.len(),
    ensures
        match versions_row(s@, i as int) {
            Some((row, j)) => match r {
                Some(p) => versions_entry_view(p.0) == row && p.1 == j && j <= s@.len(),
                None => false,
            },
            None => r is None,
        },
{
    let (region, a) = is_not_exec(s, i, '|', '|')?;
    let a = bar_exec(s, a)?;
    let (build, b) = hex128_exec(s, a)?;
    let b = bar_exec(s, b)?;
    let (cdn, c) = hex128_exec(s, b)?;
    let c = bar_exec(s, c)?;
    let (key, d) = opt_hex128_exec(s, c);
    let d = bar_exec(s, d)?;
    let (id, e) = dec32_exec(s, d)?;
    let e = bar_exec(s, e)?;
    let (name, f) = is_not_exec(s, e, '|', '|')?;
    let f = bar_exec(s, f)?;
    let (product, g) = opt_hex128_exec(s, f);
    if g < s.len() && s[g] == '\n' {
        let entry = VersionsEntry {
            region: string_of(region.as_slice()),
            build_config: build,
            cdn_config: cdn,
            key_config: key,
            build_id: id,
            name: string_of(name.as_slice()),
            product_config: product,
        };
        Some((entry, g + 1))
    } else {
        None
    }
}

/// Parses the text of a versions response.
pub fn parse_versions(text: &str) -> (r: Option<Versions>)
    ensures
        match versions_spec(text@) {
            Some((seqn, es)) => r is Some && r->0.seqn == seqn && versions_entries_view(r->0.entries@)
                == es,
            None => r is None,
        },
{
    let s = chars_of(text);
    let h = first_line_end(s.as_slice())?;
    let (seqn, mut i) = seqn_line_exec(s.as_slice(), h)?;
    let mut entries: Vec<VersionsEntry> = Vec::new();
    let n = s.len();
    assert(versions_entries_view(entries@) =~= Seq::<VersionsRow>::empty());
    while i < n
        invariant
            n == s@.len(),
            s@ == text@,
            i <= n,
            versions_spec(text@) == match versions_rows(s@, i as int, versions_entries_view(entries@)) {
                None => None,
                Some(es) => Some((seqn, es)),
            },
        decreases n - i,
    {
        let (entry, j) = match versions_row_exec(s.as_slice(), i) {
            None => {
                return None;
            },
            Some(p) => p,
        };
        if j <= i {
            return None;
        }
        let ghost before = versions_entries_view(entries@);
        let ghost row = versions_entry_view(entry);
        let mut p: usize = 0;
        let mut found = false;
        while p < entries.len() && !found
            invariant
                p <= entries@.len(),
                row == versions_entry_view(entry),
                before == versions_entries_view(entries@),
                !found ==> find_vregion(before, row.0, 0) == find_vregion(before, row.0,
                    p as int,
                ),
                found ==> p < entries@.len() && find_vregion(before, row.0, 0)
                    == Some(p as int),
            decreases entries@.len() - p + (if found { 0int } else { 1int }),
        {
            assert(before[p as int] == versions_entry_view(entries@[p as int]));
            if entries[p].region == entry.region {
                found = true;
            } else {
                p = p + 1;
            }
        }
        if found {
            entries.remove(p);
            entries.insert(p, entry);
        } else {
            entries.push(entry);
        }
        assert(versions_entries_view(entries@) =~= replace_vregion(before, row));
        i = j;
    }
    Some(Versions { seqn, entries })
}

/// A CDN row as values: region, path, hosts, servers, config path.
pub type CDNsRow = (Seq<char>, Seq<char>, Seq<Seq<char>>, Seq<Seq<char>>, Seq<char>);

pub open spec fn cdns_entry_view(e: CDNsEntry) -> CDNsRow {
    (e.region@, e.path@, string_views(e.hosts@), string_views(e.servers@), e.config_path@)
}

pub open spec fn cdns_entries_view(v: Seq<CDNsEntry>) -> Seq<CDNsRow> {
    v.map_values(|e: CDNsEntry| cdns_entry_view(e))
}

/// Further words of a space-separated list, each after one space.
pub open spec fn strs_from(s: Seq<char>, i: int, acc: Seq<Seq<char>>) -> (Seq<Seq<char>>, int)
    decreases s.len() - i,
{
    if char_at(s, i, ' ') {
        match is_not_at(s, i + 1, ' ', '|') {
            Some((w, j)) => if j <= i || j > s.len() {
                (acc, i)
            } else {
                strs_from(s, j, acc.push(w))
            },
            None => (acc, i),
        }
    } else {
        (acc, i)
    }
}

/// A possibly empty list of words separated by single spaces; a word holds
/// neither space nor bar.
pub open spec fn strs_at(s: Seq<char>, i: int) -> (Seq<Seq<char>>, int) {
    match is_not_at(s, i, ' ', '|') {
        None => (Seq::empty(), i),
        Some((w, j)) => strs_from(s, j, seq![w]),
    }
}

fn strs_exec(s: &[char], i: usize) -> (r: (Vec<String>, usize))
    requires
        i <= s@.len(),
    ensures
        string_views(r.0@) == strs_at(s@, i as int).0,
        r.1 == strs_at(s@, i as int).1,
        r.1 <= s@.len(),
{
    let mut out: Vec<String> = Vec::new();
    let (w, mut j) = match is_not_exec(s, i, ' ', '|') {
        None => {
            assert(string_views(out@) =~= Seq::<Seq<char>>::empty());
            return (out, i);
        },
        Some(p) => p,
    };
    out.push(string_of(w.as_slice()));
    assert(string_views(out@) =~= seq![w@]);
    let n = s.len();
    loop
        invariant
            n == s@.len(),
            i < j <= n,
            strs_at(s@, i as int) == strs_from(s@, j as int, string_views(out@)),
        decreases n - j,
    {
        if j < n && s[j] == ' ' {
            match is_not_exec(s, j + 1, ' ', '|') {
                Some((w2, k)) => {
                    let ghost before = string_views(out@);
                    out.push(string_of(w2.as_slice()));
                    assert(string_views(out@) =~= before.push(w2@));
                    j = k;
                },
                None => {
                    return (out, j);
                },
            }
        } else {
            return (out, j);
        }
    }
}

/// Reads a space-separated list of words from the start of `s`: the rest of
/// the text, and the words.
pub fn strs(s: &str) -> (r: (String, Vec<String>))
    ensures
        string_views(r.1@) == strs_at(s@, 0).0,
        r.0@ == s@.subrange(strs_at(s@, 0).1, s@.len() as int),
{
    let cs = chars_of(s);
    let (words, j) = strs_exec(cs.as_slice(), 0);
    let rest = string_of(&cs.as_slice()[j..cs.len()]);
    (rest, words)
}

/// One CDN row.
pub open spec fn cdns_row(s: Seq<char>, i: int) -> Option<(CDNsRow, int)> {
    match is_not_at(s, i, '|', '|') {
        None => None,
        Some((region, a)) => if !char_at(s, a, '|') {
            None
        } else {
            match is_not_at(s, a + 1, '|', '|') {
                None => None,
                Some((path, b)) => if !char_at(s, b, '|') {
                    None
                } else {
                    let (hosts, c) = strs_at(s, b + 1);
                    if !char_at(s, c, '|') {
                        None
                    } else {
                        let (servers, d) = strs_at(s, c + 1);
                        if !char_at(s, d, '|') {
                            None
                        } else {
                            match is_not_at(s, d + 1, '\n', '\n') {
                                None => None,
                                Some((config, e)) => if char_at(s, e, '\n') {
                                    Some(((region, path, hosts, servers, config), e + 1))
                                } else {
                                    None
                                },
                            }
                        }
                    }
                },
            }
        },
    }
}

pub open spec fn cdns_rows(s: Seq<char>, i: int, acc: Seq<CDNsRow>) -> Option<Seq<CDNsRow>>
    decreases s.len() - i,
{
    if i >= s.len() {
        Some(acc)
    } else {
        match cdns_row(s, i) {
            None => None,
            Some((row, j)) => if j <= i {
                None
            } else {
                cdns_rows(s, j, replace_cregion(acc, row))
            },
        }
    }
}

/// A CDN table: any first line, the sequence number line, rows.
pub open spec fn cdns_spec(s: Seq<char>) -> Option<(u32, Seq<CDNsRow>)> {
    match after_first_line(s) {
        None => None,
        Some(h) => match seqn_line(s, h) {
            None => None,
            Some((seqn, j)) => match cdns_rows(s, j, Seq::empty()) {
                None => None,
                Some(es) => Some((seqn, es)),
            },
        },
    }
}

fn cdns_row_exec(s: &[char], i: usize) -> (r: Option<(CDNsEntry, usize)>)
    requires
        i <= s@.len(),
    ensures
        match cdns_row(s@, i as int) {
            Some((row, j)) => match r {
                Some(p) => cdns_entry_view(p.0) == row && p.1 == j && j <= s@.len(),
                None => false,
            },
            None => r is None,
        },
{
    let (region, a) = is_not_exec(s, i, '|', '|')?;
    let a = bar_exec(s, a)?;
    let (path, b) = is_not_exec(s, a, '|', '|')?;
    let b = bar_exec(s, b)?;
    let (hosts, c) = strs_exec(s, b);
    let c = bar_exec(s, c)?;
    let (servers, d) = strs_exec(s, c);
    let d = bar_exec(s, d)?;
    let (config, e) = is_not_exec(s, d, '\n', '\n')?;
    if e < s.len() && s[e] == '\n' {
        let entry = CDNsEntry {
            region: string_of(region.as_slice()),
            path: string_of(path.as_slice()),
            hosts,
            servers,
            config_path: string_of(config.as_slice()),
        };
        Some((entry, e + 1))
    } else {
        None
    }
}

/// Parses the text of a CDN response.
pub fn parse_cdns(text: &str) -> (r: Option<CDNs>)
    ensures
        match cdns_spec(text@) {
            Some((seqn, es)) => r is Some && r->0.seqn == seqn && cdns_entries_view(r->0.entries@) == es,
            None => r is None,
        },
{
    let s = chars_of(text);
    let h = first_line_end(s.as_slice())?;
    let (seqn, mut i) = seqn_line_exec(s.as_slice(), h)?;
    let mut entries: Vec<CDNsEntry> = Vec::new();
    let n = s.len();
    assert(cdns_entries_view(entries@) =~= Seq::<CDNsRow>::empty());
    while i < n
        invariant
            n == s@.len(),
            s@ == text@,
            i <= n,
            cdns_spec(text@) == match cdns_rows(s@, i as int, cdns_entries_view(entries@)) {
                None => None,
                Some(es) => Some((seqn, es)),
            },
        decreases n - i,
    {
        let (entry, j) = match cdns_row_exec(s.as_slice(), i) {
            None => {
                return None;
            },
            Some(p) => p,
        };
        if j <= i {
            return None;
        }
        let ghost before = cdns_entries_view(entries@);
        let ghost row = cdns_entry_view(entry);
        let mut p: usize = 0;
        let mut found = false;
        while p < entries.len() && !found
            invariant
                p <= entries@.len(),
                row == cdns_entry_view(entry),
                before == cdns_entries_view(entries@),
                !found ==> find_cregion(before, row.0, 0) == find_cregion(before, row.0,
                    p as int,
                ),
                found ==> p < entries@.len() && find_cregion(before, row.0, 0)
                    == Some(p as int),
            decreases entries@.len() - p + (if found { 0int } else { 1int }),
        {
            assert(before[p as int] == cdns_entry_view(entries@[p as int]));
            if entries[p].region == entry.region {
                found = true;
            } else {
                p = p + 1;
            }
        }
        if found {
            entries.remove(p);
            entries.insert(p, entry);
        } else {
            entries.push(entry);
        }
        assert(cdns_entries_view(entries@) =~= replace_cregion(before, row));
        i = j;
    }
    Some(CDNs { seqn, entries })
}

/// The SHA-256 digest of a byte sequence.
pub uninterp spec fn sha256_of(b: Seq<u8>) -> Seq<u8>;

/// Relies on sha2's Sha256::digest: the 32-byte digest depends on the bytes
/// alone.
#[verifier::external_body]
fn sha256(b: &[u8]) -> (r: Vec<u8>)
    ensures
        r@ == sha256_of(b@),
{
    <sha2::Sha256 as sha2::Digest>::digest(b).to_vec()
}

/// Bytes written as lowercase hexadecimal, two digits per byte, high first.
pub open spec fn hex_lower(b: Seq<u8>) -> Seq<char>
    decreases b.len(),
{
    if b.len() == 0 {
        Seq::empty()
    } else {
        hex_lower(b.drop_last()) + seq![
            hex_char((b.last() / 16) as nat),
            hex_char((b.last() % 16) as nat),
        ]
    }
}

/// Relies on hex::encode: two lowercase hexadecimal digits per byte, in
/// order.
#[verifier::external_body]
fn hex_encode(b: &[u8]) -> (r: String)
    ensures
        r@ == hex_lower(b@),
{
    hex::encode(b)
}

/// The text of the second part (part 1) of a MIME message, where the
/// message parses and that part has text.
pub uninterp spec fn mime_text_of(b: Seq<u8>) -> Option<Seq<char>>;

/// Relies on mail_parser: MessageParser::parse, Message::part and
/// MessagePart::text_contents; the outcome depends on the bytes alone.
#[verifier::external_body]
fn mime_part_text(raw: &[u8]) -> (r: Option<String>)
    ensures
        match r {
            Some(t) => mime_text_of(raw@) == Some(t@),
            None => mime_text_of(raw@) is None,
        },
{
    let message = mail_parser::MessageParser::default().parse(raw)?;
    let text = message.part(1)?.text_contents()?;
    Some(text.to_string())
}

/// The bytes of `Checksum: `.
pub open spec fn checksum_label() -> Seq<u8> {
    seq![0x43u8, 0x68, 0x65, 0x63, 0x6b, 0x73, 0x75, 0x6d, 0x3a, 0x20]
}

/// Whether bytes spell the characters, one byte per character.
pub open spec fn spells(b: Seq<u8>, c: Seq<char>) -> bool {
    b.len() == c.len() && forall|i: int| 0 <= i < b.len() ==> (b[i] as u32) == (#[trigger] c[i] as u32)
}

/// The text of a response: it ends with `Checksum: `, the hexadecimal
/// SHA-256 of what precedes that label, and two more bytes; the text is the
/// message's first text part.
pub open spec fn response_spec(b: Seq<u8>) -> Result<Seq<char>, RibbitError> {
    let n = b.len() as int;
    if n <= 76 {
        Err(RibbitError::Truncated)
    } else if b.subrange(n - 76, n - 66) != checksum_label() {
        Err(RibbitError::MissingChecksum)
    } else if !spells(b.subrange(n - 66, n - 2), hex_lower(sha256_of(b.subrange(0, n - 76)))) {
        Err(RibbitError::BadChecksum)
    } else {
        match mime_text_of(b) {
            None => Err(RibbitError::Mime),
            Some(t) => Ok(t),
        }
    }
}

/// Checks a response's checksum trailer and gives its text.
pub fn response_text(content: &[u8]) -> (r: Result<String, RibbitError>)
    ensures
        match response_spec(content@) {
            Ok(t) => r is Ok && r->Ok_0@ == t,
            Err(e) => r == Err::<String, RibbitError>(e),
        },
{
    let n = content.len();
    if n <= 76 {
        return Err(RibbitError::Truncated);
    }
    let label: [u8; 10] = [0x43, 0x68, 0x65, 0x63, 0x6b, 0x73, 0x75, 0x6d, 0x3a, 0x20];
    let mut k: usize = 0;
    while k < 10
        invariant
            n == content@.len(),
            n > 76,
            label@ == checksum_label(),
            k <= 10,
            forall|m: int| 0 <= m < k ==> content@[n - 76 + m] == label@[m],
        decreases 10 - k,
    {
        if content[n - 76 + k] != label[k] {
            assert(content@.subrange(n - 76, n - 66)[k as int] != checksum_label()[k as int]);
            return Err(RibbitError::MissingChecksum);
        }
        k = k + 1;
    }
    assert(content@.subrange(n - 76, n - 66) =~= checksum_label());
    let digest = sha256(&content[0..n - 76]);
    let hex = hex_encode(digest.as_slice());
    let hc = chars_of(hex.as_str());
    let ghost want = hex_lower(sha256_of(content@.subrange(0, n - 76)));
    if hc.len() != 64 {
        return Err(RibbitError::BadChecksum);
    }
    let mut k: usize = 0;
    while k < 64
        invariant
            n == content@.len(),
            n > 76,
            hc@ == want,
            want == hex_lower(sha256_of(content@.subrange(0, n - 76))),
            content@.subrange(n - 76, n - 66) == checksum_label(),
            hc@.len() == 64,
            k <= 64,
            forall|m: int| 0 <= m < k ==> (content@[n - 66 + m] as u32) == (#[trigger] hc@[m] as u32),
        decreases 64 - k,
    {
        if content[n - 66 + k] as u32 != hc[k] as u32 {
            assert(content@.subrange(n - 66, n - 2)[k as int] == content@[n - 66 + k]);
            assert(!((content@.subrange(n - 66, n - 2)[k as int] as u32) == (want[k as int] as u32)));
            return Err(RibbitError::BadChecksum);
        }
        k = k + 1;
    }
    assert(spells(content@.subrange(n - 66, n - 2), want));
    match mime_part_text(content) {
        None => Err(RibbitError::Mime),
        Some(t) => Ok(t),
    }
}

/// A client of the version server. It holds no state: the caller sends the
/// command and hands back the raw response.
pub struct Ribbit {}

impl Ribbit {
    pub fn new() -> (r: Result<Ribbit, RibbitError>)
        ensures
            r is Ok,
    {
        Ok(Ribbit {})
    }

    /// The command line that asks for the summary.
    pub fn summary_command() -> (r: String)
        ensures
            r@ == "v1/summary\r\n"@,
    {
        string_of(chars_of("v1/summary\r\n").as_slice())
    }

    /// The command line that asks for a product's versions.
    pub fn versions_command(product: &str) -> (r: String)
        ensures
            r@ == "v1/products/"@ + product@ + "/versions\r\n"@,
    {
        let mut c = chars_of("v1/products/");
        let mut p = chars_of(product);
        let mut t = chars_of("/versions\r\n");
        c.append(&mut p);
        c.append(&mut t);
        string_of(c.as_slice())
    }

    /// The command line that asks for a product's CDNs.
    pub fn cdns_command(product: &str) -> (r: String)
        ensures
            r@ == "v1/products/"@ + product@ + "/cdns\r\n"@,
    {
        let mut c = chars_of("v1/products/");
        let mut p = chars_of(product);
        let mut t = chars_of("/cdns\r\n");
        c.append(&mut p);
        c.append(&mut t);
        string_of(c.as_slice())
    }

    /// Reads the response to the summary command.
    pub fn summary(&mut self, response: &[u8]) -> (r: Result<Summary, RibbitError>)
        ensures
            *final(self) == *old(self),
            match response_spec(response@) {
                Err(e) => r == Err::<Summary, RibbitError>(e),
                Ok(t) => match summary_spec(t) {
                    Some((seqn, es)) => r is Ok && r->Ok_0.seqn == seqn && summary_entries_view(
                        r->Ok_0.entries@,
                    ) == es,
                    None => r == Err::<Summary, RibbitError>(RibbitError::Syntax),
                },
            },
    {
        let text = response_text(response)?;
        match parse_summary(text.as_str()) {
            Some(v) => Ok(v),
            None => Err(RibbitError::Syntax),
        }
    }

    /// Reads the response to a versions command.
    pub fn versions(&mut self, response: &[u8]) -> (r: Result<Versions, RibbitError>)
        ensures
            *final(self) == *old(self),
            match response_spec(response@) {
                Err(e) => r == Err::<Versions, RibbitError>(e),
                Ok(t) => match versions_spec(t) {
                    Some((seqn, es)) => r is Ok && r->Ok_0.seqn == seqn && versions_entries_view(
                        r->Ok_0.entries@,
                    ) == es,
                    None => r == Err::<Versions, RibbitError>(RibbitError::Syntax),
                },
            },
    {
        let text = response_text(response)?;
        match parse_versions(text.as_str()) {
            Some(v) => Ok(v),
            None => Err(RibbitError::Syntax),
        }
    }

    /// Reads the response to a CDNs command.
    pub fn cdns(&mut self, response: &[u8]) -> (r: Result<CDNs, RibbitError>)
        ensures
            *final(self) == *old(self),
            match response_spec(response@) {
                Err(e) => r == Err::<CDNs, RibbitError>(e),
                Ok(t) => match cdns_spec(t) {
                    Some((seqn, es)) => r is Ok && r->Ok_0.seqn == seqn && cdns_entries_view(
                        r->Ok_0.entries@,
                    ) == es,
                    None => r == Err::<CDNs, RibbitError>(RibbitError::Syntax),
                },
            },
    {
        let text = response_text(response)?;
        match parse_cdns(text.as_str()) {
            Some(v) => Ok(v),
            None => Err(RibbitError::Syntax),
        }
    }
}

} // verus!
