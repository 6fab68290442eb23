//! The patch server's pipe-delimited info tables and the `key = value`
//! config files of the store.
use vstd::prelude::*;

use crate::keys::{ContentKey, EncodingKey};
use crate::text::{
    chars_of, free_of, join, lemma_join_free, lemma_lines_of_join, lemma_split_join,
    lemma_split_nonempty, lines_chars, lines_spec, split_chars, split_on, string_of, views,
};

verus! {

/// Named fields in the order they were read; where a name repeats, the
/// later field is the one that counts.
#[derive(Debug)]
pub struct Fields {
    pub pairs: Vec<(String, String)>,
}

pub open spec fn string_views(v: Seq<String>) -> Seq<Seq<char>> {
    v.map_values(|x: String| x@)
}

pub open spec fn pair_views(p: Seq<(String, String)>) -> Seq<(Seq<char>, Seq<char>)> {
    p.map_values(|x: (String, String)| (x.0@, x.1@))
}

/// The value of the last field named `k`.
pub open spec fn lookup(p: Seq<(Seq<char>, Seq<char>)>, k: Seq<char>) -> Option<Seq<char>>
    decreases p.len(),
{
    if p.len() == 0 {
        None
    } else if p.last().0 == k {
        Some(p.last().1)
    } else {
        lookup(p.drop_last(), k)
    }
}

impl Fields {
    pub open spec fn view(&self) -> Seq<(Seq<char>, Seq<char>)> {
        pair_views(self.pairs@)
    }

    /// The value of the last field with this name.
    pub fn get(&self, key: &str) -> (r: Option<&String>)
        ensures
            match lookup(self@, key@) {
                Some(v) => r is Some && r->0@ == v,
                None => r is None,
            },
    {
        let k = key.to_owned();
        let mut i = self.pairs.len();
        assert(self.pairs@.subrange(0, i as int) =~= self.pairs@);
        while i > 0
            invariant
                i <= self.pairs@.len(),
                k@ == key@,
                lookup(self@, key@) == lookup(pair_views(self.pairs@.subrange(0, i as int)), key@),
            decreases i,
        {
            assert(pair_views(self.pairs@.subrange(0, i as int)).drop_last() =~= pair_views(
                self.pairs@.subrange(0, i as int - 1),
            ));
            if self.pairs[i - 1].0 == k {
                return Some(&self.pairs[i - 1].1);
            }
            i = i - 1;
        }
        None
    }
}

/// A tag of the header row: the part of a column name before `!`.
pub open spec fn tag_of(t: Seq<char>) -> Seq<char> {
    split_on(t, '!')[0]
}

/// Tags paired with the values of one row, as far as both go.
pub open spec fn zip_row(tags: Seq<Seq<char>>, vals: Seq<Seq<char>>) -> Seq<(Seq<char>, Seq<char>)> {
    let n = if tags.len() <= vals.len() {
        tags.len()
    } else {
        vals.len()
    };
    Seq::new(n, |i: int| (tags[i], vals[i]))
}

pub open spec fn info_tags(s: Seq<char>) -> Seq<Seq<char>> {
    split_on(lines_spec(s)[0], '|').map_values(|t: Seq<char>| tag_of(t))
}

/// The records of an info table: the first line names the columns, the
/// second is skipped, each further line is a record.
pub open spec fn info_spec(s: Seq<char>) -> Seq<Seq<(Seq<char>, Seq<char>)>> {
    let ls = lines_spec(s);
    if s.len() == 0 || ls.len() < 2 {
        Seq::empty()
    } else {
        Seq::new((ls.len() - 2) as nat, |i: int| zip_row(info_tags(s), split_on(ls[i + 2], '|')))
    }
}

pub open spec fn records_view(r: Seq<Fields>) -> Seq<Seq<(Seq<char>, Seq<char>)>> {
    r.map_values(|f: Fields| f@)
}

pub proof fn lemma_lines_nonempty(s: Seq<char>)
    requires
        s.len() > 0,
    ensures
        lines_spec(s).len() >= 1,
{
    lemma_split_nonempty(s.drop_last(), '\n');
    lemma_split_nonempty(s, '\n');
}

fn strings_of(v: &Vec<Vec<char>>) -> (r: Vec<String>)
    ensures
        string_views(r@) == views(v@),
{
    let mut out: Vec<String> = Vec::new();
    let mut i: usize = 0;
    while i < v.len()
        invariant
            i <= v@.len(),
            string_views(out@) == views(v@).subrange(0, i as int),
        decreases v@.len() - i,
    {
        let ghost before = out@;
        out.push(string_of(v[i].as_slice()));
        assert(string_views(out@) =~= string_views(before).push(v@[i as int]@));
        i = i + 1;
        assert(string_views(out@) =~= views(v@).subrange(0, i as int));
    }
    assert(views(v@).subrange(0, i as int) =~= views(v@));
    out
}

/// Parses an info table into one record per data line.
pub fn parse_info(s: &str) -> (r: Vec<Fields>)
    ensures
        records_view(r@) == info_spec(s@),
{
    let cs = chars_of(s);
    if cs.len() == 0 {
        let empty: Vec<Fields> = Vec::new();
        assert(records_view(empty@) =~= info_spec(s@));
        return empty;
    }
    proof {
        lemma_lines_nonempty(s@);
    }
    let lines = lines_chars(cs.as_slice());
    assert(views(lines@)[0] == lines@[0]@);
    let columns = split_chars(lines[0].as_slice(), '|');
    let mut tags: Vec<String> = Vec::new();
    let mut t: usize = 0;
    while t < columns.len()
        invariant
            t <= columns@.len(),
            views(columns@) == split_on(lines_spec(s@)[0], '|'),
            string_views(tags@) == info_tags(s@).subrange(0, t as int),
        decreases columns@.len() - t,
    {
        let parts = split_chars(columns[t].as_slice(), '!');
        proof {
            lemma_split_nonempty(columns@[t as int]@, '!');
            assert(views(columns@)[t as int] == columns@[t as int]@);
            assert(views(parts@)[0] == parts@[0]@);
        }
        let ghost before = tags@;
        tags.push(string_of(parts[0].as_slice()));
        assert(string_views(tags@) =~= string_views(before).push(parts@[0]@));
        t = t + 1;
        assert(string_views(tags@) =~= info_tags(s@).subrange(0, t as int));
    }
    assert(info_tags(s@).subrange(0, t as int) =~= info_tags(s@));
    let mut out: Vec<Fields> = Vec::new();
    if lines.len() < 2 {
        assert(records_view(out@) =~= info_spec(s@));
        return out;
    }
    let mut k: usize = 2;
    while k < lines.len()
        invariant
            2 <= k <= lines@.len(),
            views(lines@) == lines_spec(s@),
            s@.len() > 0,
            string_views(tags@) == info_tags(s@),
            records_view(out@) == info_spec(s@).subrange(0, k - 2),
        decreases lines@.len() - k,
    {
        let vals = split_chars(lines[k].as_slice(), '|');
        let values = strings_of(&vals);
        assert(views(lines@)[k as int] == lines@[k as int]@);
        let n = if tags.len() <= values.len() {
            tags.len()
        } else {
            values.len()
        };
        let mut pairs: Vec<(String, String)> = Vec::new();
        let mut i: usize = 0;
        while i < n
            invariant
                i <= n,
                n <= tags@.len(),
                n <= values@.len(),
                pair_views(pairs@) == zip_row(
                    string_views(tags@),
                    string_views(values@),
                ).subrange(0, i as int),
            decreases n - i,
        {
            let ghost before = pairs@;
            pairs.push((tags[i].clone(), values[i].clone()));
            assert(pair_views(pairs@) =~= pair_views(before).push((tags@[i as int]@, values@[i as int]@)));
            i = i + 1;
            assert(pair_views(pairs@) =~= zip_row(
                string_views(tags@),
                string_views(values@),
            ).subrange(0, i as int));
        }
        let f = Fields { pairs };
        assert(f@ =~= zip_row(info_tags(s@), split_on(lines_spec(s@)[k as int], '|')));
        let ghost before = out@;
        let ghost fv = f@;
        out.push(f);
        assert(records_view(out@) =~= records_view(before).push(fv));
        k = k + 1;
        assert(records_view(out@) =~= info_spec(s@).subrange(0, k - 2));
    }
    assert(info_spec(s@).subrange(0, k - 2) =~= info_spec(s@));
    out
}

/// An info table as its records: each a list of (tag, value) pairs.
pub type InfoTable = Seq<Seq<(Seq<char>, Seq<char>)>>;

pub open spec fn record_tags(r: Seq<(Seq<char>, Seq<char>)>) -> Seq<Seq<char>> {
    r.map_values(|p: (Seq<char>, Seq<char>)| p.0)
}

pub open spec fn record_values(r: Seq<(Seq<char>, Seq<char>)>) -> Seq<Seq<char>> {
    r.map_values(|p: (Seq<char>, Seq<char>)| p.1)
}

pub open spec fn row_text(r: Seq<(Seq<char>, Seq<char>)>) -> Seq<char> {
    join(record_values(r), '|')
}

/// The text of an info table: the tags of the first record joined by bars,
/// an empty line, then each record's values joined by bars; every line ends
/// with a line feed. No records give no text.
pub open spec fn render_info(m: InfoTable) -> Seq<char> {
    if m.len() == 0 {
        Seq::empty()
    } else {
        join(
            seq![join(record_tags(m[0]), '|'), Seq::empty()] + m.map_values(
                |r: Seq<(Seq<char>, Seq<char>)>| row_text(r),
            ),
            '\n',
        ).push('\n')
    }
}

/// A field that can stand in a line of an info table.
pub open spec fn clean_field(s: Seq<char>) -> bool {
    free_of(s, '|') && free_of(s, '\n') && free_of(s, '\r')
}

/// Records that an info table can hold: all with the same non-empty list of
/// tags, no field holding a bar or a line break, no tag holding `!`.
pub open spec fn info_schema_valid(m: InfoTable) -> bool {
    m.len() > 0 ==> {
        &&& m[0].len() >= 1
        &&& forall|i: int|
            0 <= i < m.len() ==> (#[trigger] m[i]).len() == m[0].len() && forall|j: int|
                0 <= j < m[0].len() ==> (#[trigger] m[i][j]).0 == m[0][j].0 && clean_field(m[i][j].0)
                    && free_of(m[i][j].0, '!') && clean_field(m[i][j].1)
    }
}

/// Reading the text of an info table gives back its records.
pub proof fn lemma_info_round_trip(m: InfoTable)
    requires
        info_schema_valid(m),
    ensures
        info_spec(render_info(m)) == m,
{
    if m.len() == 0 {
        assert(info_spec(render_info(m)) =~= m);
    } else {
        let tags = record_tags(m[0]);
        let header = join(tags, '|');
        let rows = m.map_values(|r: Seq<(Seq<char>, Seq<char>)>| row_text(r));
        let lines = seq![header, Seq::<char>::empty()] + rows;
        assert forall|j: int| 0 <= j < tags.len() implies clean_field(#[trigger] tags[j]) && free_of(tags[j], '!') by {
            assert(m[0][j].0 == tags[j]);
        }
        lemma_join_free(tags, '|', '\n');
        lemma_join_free(tags, '|', '\r');
        assert forall|i: int| 0 <= i < m.len() implies free_of(#[trigger] rows[i], '\n') && free_of(rows[i], '\r')
            && split_on(rows[i], '|') == record_values(m[i]) by {
            let vals = record_values(m[i]);
            assert forall|j: int| 0 <= j < vals.len() implies clean_field(#[trigger] vals[j]) by {
                assert(m[i][j].1 == vals[j]);
            }
            lemma_join_free(vals, '|', '\n');
            lemma_join_free(vals, '|', '\r');
            lemma_split_join(vals, '|');
        }
        assert forall|i: int| 0 <= i < lines.len() implies free_of(#[trigger] lines[i], '\n') && free_of(
            lines[i],
            '\r',
        ) by {
            if i >= 2 {
                assert(lines[i] == rows[i - 2]);
            }
        }
        lemma_lines_of_join(lines);
        let s = render_info(m);
        assert(s.len() > 0);
        assert(lines_spec(s) == lines);
        lemma_split_join(tags, '|');
        assert forall|j: int| 0 <= j < tags.len() implies tag_of(#[trigger] tags[j]) == tags[j] by {
            lemma_split_join(seq![tags[j]], '!');
            assert(join(seq![tags[j]], '!') == tags[j]);
        }
        assert(info_tags(s) =~= tags);
        assert forall|i: int| 0 <= i < m.len() implies #[trigger] zip_row(tags, split_on(lines[i + 2], '|')) == m[i] by {
            assert(lines[i + 2] == rows[i]);
            assert(zip_row(tags, record_values(m[i])) =~= m[i]);
        }
        assert(info_spec(s) =~= m);
    }
}

/// Why a config or an info table could not give what was asked of it.
#[derive(Debug, Clone, Copy, PartialEq, Eq, Structural)]
pub enum ConfigError {
    /// A hash is not a hexadecimal number of at most 128 bits.
    BadHash,
    /// The build config has no `root` field.
    MissingRoot,
    /// The build config has no `encoding` field.
    MissingEncoding,
    /// The `encoding` field has no second token.
    MissingEncodingKey,
    /// The versions table has no row for the region.
    MissingVersion,
    /// The region's row has no `BuildConfig`.
    MissingBuildConfig,
    /// The region's row has no `CDNConfig`.
    MissingCdnConfig,
    /// The CDN table has no row for the region.
    MissingCdn,
    /// The region's CDN row has no `Hosts`.
    MissingHosts,
    /// The region's CDN row has no `Path`.
    MissingPath,
}

/// Where the first ` = ` at or after `i` starts.
pub open spec fn separator_from(l: Seq<char>, i: int) -> Option<int>
    decreases l.len() - i,
{
    if i < 0 || i + 3 > l.len() {
        None
    } else if l[i] == ' ' && l[i + 1] == '=' && l[i + 2] == ' ' {
        Some(i)
    } else {
        separator_from(l, i + 1)
    }
}

/// The fields of the lines that hold ` = `, split at its first occurrence.
pub open spec fn config_pairs(ls: Seq<Seq<char>>) -> Seq<(Seq<char>, Seq<char>)>
    decreases ls.len(),
{
    if ls.len() == 0 {
        Seq::empty()
    } else {
        let rest = config_pairs(ls.drop_last());
        let l = ls.last();
        match separator_from(l, 0) {
            Some(i) => rest.push((l.subrange(0, i), l.subrange(i + 3, l.len() as int))),
            None => rest,
        }
    }
}

/// Parses a config file: one field per line of the form `key = value`;
/// other lines are ignored.
pub fn parse_config(s: &str) -> (r: Fields)
    ensures
        r@ == config_pairs(lines_spec(s@)),
{
    let cs = chars_of(s);
    let lines = lines_chars(cs.as_slice());
    let mut pairs: Vec<(String, String)> = Vec::new();
    let mut k: usize = 0;
    while k < lines.len()
        invariant
            k <= lines@.len(),
            views(lines@) == lines_spec(s@),
            pair_views(pairs@) == config_pairs(views(lines@).subrange(0, k as int)),
        decreases lines@.len() - k,
    {
        let l = lines[k].as_slice();
        let n = l.len();
        let mut i: usize = 0;
        let mut found = false;
        while !found && n - i >= 3
            invariant
                n == l@.len(),
                i <= n,
                !found ==> separator_from(l@, 0) == separator_from(l@, i as int),
                found ==> i + 3 <= n && separator_from(l@, 0) == Some(i as int),
            decreases n - i + (if found { 0int } else { 1int }),
        {
            if l[i] == ' ' && l[i + 1] == '=' && l[i + 2] == ' ' {
                found = true;
            } else {
                i = i + 1;
            }
        }
        let ghost before = pairs@;
        proof {
            assert(views(lines@).subrange(0, k as int + 1).drop_last() =~= views(lines@).subrange(0, k as int));
            assert(views(lines@)[k as int] == l@);
        }
        if found {
            let key = string_of(&l[0..i]);
            let value = string_of(&l[i + 3..n]);
            pairs.push((key, value));
            assert(pair_views(pairs@) =~= pair_views(before).push((l@.subrange(0, i as int), l@.subrange(i as int + 3, n as int))));
        }
        k = k + 1;
    }
    assert(views(lines@).subrange(0, k as int) =~= views(lines@));
    Fields { pairs }
}

/// The value of a hexadecimal digit, either case.
pub open spec fn hex_val(c: char) -> Option<nat> {
    if '0' <= c <= '9' {
        Some((c as nat - '0' as nat) as nat)
    } else if 'a' <= c <= 'f' {
        Some((c as nat - 'a' as nat + 10) as nat)
    } else if 'A' <= c <= 'F' {
        Some((c as nat - 'A' as nat + 10) as nat)
    } else {
        None
    }
}

pub open spec fn all_hex(s: Seq<char>) -> bool {
    forall|i: int| 0 <= i < s.len() ==> (#[trigger] hex_val(s[i])) is Some
}

pub open spec fn hex_value(s: Seq<char>) -> nat
    decreases s.len(),
{
    if s.len() == 0 {
        0
    } else {
        hex_value(s.drop_last()) * 16 + match hex_val(s.last()) {
            Some(v) => v,
            None => 0,
        }
    }
}

/// The digits of a number: the text without one leading `+`.
pub open spec fn digits_of(s: Seq<char>) -> Seq<char> {
    if s.len() > 0 && s[0] == '+' {
        s.drop_first()
    } else {
        s
    }
}

/// A 128-bit unsigned number in hexadecimal, as `u128::from_str_radix`
/// reads it.
pub open spec fn hash_spec(s: Seq<char>) -> Option<u128> {
    let d = digits_of(s);
    if d.len() > 0 && all_hex(d) && hex_value(d) < 0x1_0000_0000_0000_0000_0000_0000_0000_0000 {
        Some(hex_value(d) as u128)
    } else {
        None
    }
}

pub proof fn lemma_hex_value_grows(s: Seq<char>, i: int)
    requires
        0 <= i <= s.len(),
    ensures
        hex_value(s.subrange(0, i)) <= hex_value(s),
    decreases s.len() - i,
{
    if i < s.len() {
        lemma_hex_value_grows(s, i + 1);
        assert(s.subrange(0, i + 1).drop_last() =~= s.subrange(0, i));
    } else {
        assert(s.subrange(0, i) =~= s);
    }
}

/// Parses a hash written in hexadecimal.
pub fn parse_hash(s: &str) -> (r: Result<u128, ConfigError>)
    ensures
        match hash_spec(s@) {
            Some(v) => r == Ok::<u128, ConfigError>(v),
            None => r == Err::<u128, ConfigError>(ConfigError::BadHash),
        },
{
    let cs = chars_of(s);
    let n = cs.len();
    let start: usize = if n > 0 && cs[0] == '+' {
        1
    } else {
        0
    };
    let ghost d = digits_of(s@);
    assert(d =~= cs@.subrange(start as int, n as int));
    if start == n {
        return Err(ConfigError::BadHash);
    }
    let mut acc: u128 = 0;
    let mut i: usize = start;
    while i < n
        invariant
            n == cs@.len(),
            cs@ == s@,
            d == digits_of(s@),
            start <= i <= n,
            d == cs@.subrange(start as int, n as int),
            forall|j: int| 0 <= j < i - start ==> (#[trigger] hex_val(d[j])) is Some,
            acc == hex_value(d.subrange(0, i - start)),
        decreases n - i,
    {
        let c = cs[i];
        let v: u128 = if '0' <= c && c <= '9' {
            (c as u32 - '0' as u32) as u128
        } else if 'a' <= c && c <= 'f' {
            (c as u32 - 'a' as u32 + 10) as u128
        } else if 'A' <= c && c <= 'F' {
            (c as u32 - 'A' as u32 + 10) as u128
        } else {
            assert(hex_val(d[i - start]) is None);
            return Err(ConfigError::BadHash);
        };
        assert(d.subrange(0, i - start + 1).drop_last() =~= d.subrange(0, i - start));
        assert(hex_val(d[i - start]) == Some(v as nat));
        if acc > (u128::MAX - v) / 16 {
            proof {
                lemma_hex_value_grows(d, i - start + 1);
                assert(acc * 16 + v > u128::MAX) by (nonlinear_arith)
                    requires
                        acc > (u128::MAX - v) / 16,
                        v < 16,
                ;
            }
            return Err(ConfigError::BadHash);
        }
        acc = acc * 16 + v;
        i = i + 1;
    }
    assert(d.subrange(0, n - start) =~= d);
    Ok(acc)
}

/// The two keys of a build config that the store needs.
#[derive(Debug, Clone, Copy, PartialEq, Eq, Structural)]
pub struct BuildConfig {
    pub root: ContentKey,
    pub encoding: EncodingKey,
}

/// The root content key and the encoding table's encoding key, the second
/// token of the `encoding` field.
pub open spec fn build_config_spec(f: Seq<(Seq<char>, Seq<char>)>) -> Result<
    (u128, u128),
    ConfigError,
> {
    match lookup(f, "root"@) {
        None => Err(ConfigError::MissingRoot),
        Some(r) => match hash_spec(r) {
            None => Err(ConfigError::BadHash),
            Some(root) => match lookup(f, "encoding"@) {
                None => Err(ConfigError::MissingEncoding),
                Some(e) => if split_on(e, ' ').len() < 2 {
                    Err(ConfigError::MissingEncodingKey)
                } else {
                    match hash_spec(split_on(e, ' ')[1]) {
                        None => Err(ConfigError::BadHash),
                        Some(enc) => Ok((root, enc)),
                    }
                },
            },
        },
    }
}

/// Reads the root and encoding keys of a build config.
pub fn parse_build_config(config: &Fields) -> (r: Result<BuildConfig, ConfigError>)
    ensures
        match build_config_spec(config@) {
            Ok((root, enc)) => r == Ok::<BuildConfig, ConfigError>(
                BuildConfig { root: ContentKey(root), encoding: EncodingKey(enc) },
            ),
            Err(e) => r == Err::<BuildConfig, ConfigError>(e),
        },
{
    let root = match config.get("root") {
        None => {
            return Err(ConfigError::MissingRoot);
        },
        Some(v) => parse_hash(v.as_str())?,
    };
    let enc = match config.get("encoding") {
        None => {
            return Err(ConfigError::MissingEncoding);
        },
        Some(v) => v,
    };
    let cs = chars_of(enc.as_str());
    let tokens = split_chars(cs.as_slice(), ' ');
    if tokens.len() < 2 {
        return Err(ConfigError::MissingEncodingKey);
    }
    assert(views(tokens@)[1] == tokens@[1]@);
    let key = string_of(tokens[1].as_slice());
    let encoding = parse_hash(key.as_str())?;
    Ok(BuildConfig { root: ContentKey(root), encoding: EncodingKey(encoding) })
}

/// The first record from `i` on whose field `key` is `value`.
pub open spec fn first_match(
    recs: Seq<Seq<(Seq<char>, Seq<char>)>>,
    key: Seq<char>,
    value: Seq<char>,
    i: int,
) -> Option<int>
    decreases recs.len() - i,
{
    if i < 0 || i >= recs.len() {
        None
    } else if lookup(recs[i], key) == Some(value) {
        Some(i)
    } else {
        first_match(recs, key, value, i + 1)
    }
}

fn find_record(recs: &Vec<Fields>, key: &str, value: &str) -> (r: Option<usize>)
    ensures
        match r {
            Some(i) => i < recs@.len() && first_match(records_view(recs@), key@, value@, 0) == Some(
                i as int,
            ),
            None => first_match(records_view(recs@), key@, value@, 0) is None,
        },
{
    let want = value.to_owned();
    let mut i: usize = 0;
    while i < recs.len()
        invariant
            i <= recs@.len(),
            want@ == value@,
            first_match(records_view(recs@), key@, value@, 0) == first_match(
                records_view(recs@),
                key@,
                value@,
                i as int,
            ),
        decreases recs@.len() - i,
    {
        assert(records_view(recs@)[i as int] == recs@[i as int]@);
        match recs[i].get(key) {
            Some(v) => {
                if *v == want {
                    return Some(i);
                }
            },
            None => {},
        }
        i = i + 1;
    }
    None
}

/// The build-config and CDN-config hashes of the `us` row of a versions
/// table.
pub open spec fn versions_spec(s: Seq<char>) -> Result<(u128, u128), ConfigError> {
    let recs = info_spec(s);
    match first_match(recs, "Region"@, "us"@, 0) {
        None => Err(ConfigError::MissingVersion),
        Some(i) => match lookup(recs[i], "BuildConfig"@) {
            None => Err(ConfigError::MissingBuildConfig),
            Some(b) => match hash_spec(b) {
                None => Err(ConfigError::BadHash),
                Some(build) => match lookup(recs[i], "CDNConfig"@) {
                    None => Err(ConfigError::MissingCdnConfig),
                    Some(c) => match hash_spec(c) {
                        None => Err(ConfigError::BadHash),
                        Some(cdn) => Ok((build, cdn)),
                    },
                },
            },
        },
    }
}

/// Reads the build-config and CDN-config hashes from a versions table.
pub fn version_configs(info: &str) -> (r: Result<(u128, u128), ConfigError>)
    ensures
        r == versions_spec(info@),
{
    let recs = parse_info(info);
    let i = match find_record(&recs, "Region", "us") {
        None => {
            return Err(ConfigError::MissingVersion);
        },
        Some(i) => i,
    };
    assert(records_view(recs@)[i as int] == recs@[i as int]@);
    let build = match recs[i].get("BuildConfig") {
        None => {
            return Err(ConfigError::MissingBuildConfig);
        },
        Some(b) => parse_hash(b.as_str())?,
    };
    let cdn = match recs[i].get("CDNConfig") {
        None => {
            return Err(ConfigError::MissingCdnConfig);
        },
        Some(c) => parse_hash(c.as_str())?,
    };
    Ok((build, cdn))
}

/// A host prefix: `http://` host `/` path.
pub open spec fn prefix_of(host: Seq<char>, path: Seq<char>) -> Seq<char> {
    "http://"@ + host + "/"@ + path
}

/// The host prefixes of the `us` row of a CDN table.
pub open spec fn cdns_spec(s: Seq<char>) -> Result<Seq<Seq<char>>, ConfigError> {
    let recs = info_spec(s);
    match first_match(recs, "Name"@, "us"@, 0) {
        None => Err(ConfigError::MissingCdn),
        Some(i) => match lookup(recs[i], "Hosts"@) {
            None => Err(ConfigError::MissingHosts),
            Some(h) => match lookup(recs[i], "Path"@) {
                None => Err(ConfigError::MissingPath),
                Some(p) => Ok(split_on(h, ' ').map_values(|host: Seq<char>| prefix_of(host, p))),
            },
        },
    }
}

/// Reads the host prefixes, `http://<host>/<path>`, from a CDN table.
pub fn cdn_prefixes(info: &str) -> (r: Result<Vec<String>, ConfigError>)
    ensures
        match cdns_spec(info@) {
            Ok(v) => r is Ok && string_views(r->Ok_0@) == v,
            Err(e) => r == Err::<Vec<String>, ConfigError>(e),
        },
{
    let recs = parse_info(info);
    let i = match find_record(&recs, "Name", "us") {
        None => {
            return Err(ConfigError::MissingCdn);
        },
        Some(i) => i,
    };
    assert(records_view(recs@)[i as int] == recs@[i as int]@);
    let hosts = match recs[i].get("Hosts") {
        None => {
            return Err(ConfigError::MissingHosts);
        },
        Some(h) => h,
    };
    let path = match recs[i].get("Path") {
        None => {
            return Err(ConfigError::MissingPath);
        },
        Some(p) => p,
    };
    let hs = chars_of(hosts.as_str());
    let names = split_chars(hs.as_slice(), ' ');
    let scheme = chars_of("http://");
    let slash = chars_of("/");
    let pc = chars_of(path.as_str());
    let ghost want = split_on(hosts@, ' ').map_values(|host: Seq<char>| prefix_of(host, path@));
    let mut out: Vec<String> = Vec::new();
    let mut k: usize = 0;
    while k < names.len()
        invariant
            k <= names@.len(),
            views(names@) == split_on(hosts@, ' '),
            want == split_on(hosts@, ' ').map_values(|host: Seq<char>| prefix_of(host, path@)),
            scheme@ == "http://"@,
            slash@ == "/"@,
            pc@ == path@,
            string_views(out@) == want.subrange(0, k as int),
        decreases names@.len() - k,
    {
        let mut url: Vec<char> = scheme.clone();
        let mut piece = names[k].clone();
        url.append(&mut piece);
        let mut sl = slash.clone();
        url.append(&mut sl);
        let mut pp = pc.clone();
        url.append(&mut pp);
        let ghost before = out@;
        out.push(string_of(url.as_slice()));
        assert(views(names@)[k as int] == names@[k as int]@);
        assert(string_views(out@) =~= string_views(before).push(want[k as int]));
        k = k + 1;
    }
    assert(want.subrange(0, k as int) =~= want);
    Ok(out)
}

} // verus!
