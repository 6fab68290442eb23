//! What the closure walk reads from the files it fetches: the references of
//! a `.toc` manifest or of an XML file, and the names it starts from.
use vstd::prelude::*;

use vstd::slice::slice_to_vec;
use vstd::utf8::decode_utf8;

use crate::grammar::has_at_exec;
use crate::keys::FileDataID;
use crate::info::string_views;
use crate::paths::{normalize_path, normalize_spec};
use crate::text::{
    chars_of, lines_chars, lines_spec, split_chars, split_on, string_of, utf8_string, views,
};

verus! {

/// Whether `str::trim` removes a character: Unicode `White_Space`.
pub open spec fn is_space(c: char) -> bool {
    ('\t' <= c <= '\r') || c == ' ' || c == '\u{85}' || c == '\u{a0}' || c == '\u{1680}' || (
    '\u{2000}' <= c <= '\u{200a}') || c == '\u{2028}' || c == '\u{2029}' || c == '\u{202f}' || c
        == '\u{205f}' || c == '\u{3000}'
}

fn is_space_exec(c: char) -> (r: bool)
    ensures
        r == is_space(c),
{
    ('\t' <= c && c <= '\r') || c == ' ' || c == '\u{85}' || c == '\u{a0}' || c == '\u{1680}' || (
    '\u{2000}' <= c && c <= '\u{200a}') || c == '\u{2028}' || c == '\u{2029}' || c == '\u{202f}'
        || c == '\u{205f}' || c == '\u{3000}'
}

pub open spec fn trim_start(s: Seq<char>) -> Seq<char>
    decreases s.len(),
{
    if s.len() > 0 && is_space(s[0]) {
        trim_start(s.drop_first())
    } else {
        s
    }
}

pub open spec fn trim_end(s: Seq<char>) -> Seq<char>
    decreases s.len(),
{
    if s.len() > 0 && is_space(s.last()) {
        trim_end(s.drop_last())
    } else {
        s
    }
}

/// A line without its leading and trailing white space.
pub open spec fn trim(s: Seq<char>) -> Seq<char> {
    trim_end(trim_start(s))
}

fn trim_chars(s: &[char]) -> (r: Vec<char>)
    ensures
        r@ == trim(s@),
{
    let n = s.len();
    let mut a: usize = 0;
    assert(s@.subrange(0, n as int) =~= s@);
    while a < n && is_space_exec(s[a])
        invariant
            n == s@.len(),
            a <= n,
            trim_start(s@) == trim_start(s@.subrange(a as int, n as int)),
        decreases n - a,
    {
        assert(s@.subrange(a as int, n as int).drop_first() =~= s@.subrange(a as int + 1, n as int));
        a = a + 1;
    }
    let mut b: usize = n;
    while b > a && is_space_exec(s[b - 1])
        invariant
            n == s@.len(),
            a <= b <= n,
            trim_start(s@) == s@.subrange(a as int, n as int),
            trim(s@) == trim_end(s@.subrange(a as int, b as int)),
        decreases b - a,
    {
        assert(s@.subrange(a as int, b as int).drop_last() =~= s@.subrange(a as int, b as int - 1));
        b = b - 1;
    }
    slice_to_vec(&s[a..b])
}

/// The references of `.toc` lines: each line without white space, unless
/// empty or a `#` comment, resolved against the manifest's own path.
pub open spec fn toc_refs(base: Seq<char>, ls: Seq<Seq<char>>) -> Seq<Seq<char>>
    decreases ls.len(),
{
    if ls.len() == 0 {
        Seq::empty()
    } else {
        let rest = toc_refs(base, ls.drop_last());
        let t = trim(ls.last());
        if t.len() == 0 || t[0] == '#' {
            rest
        } else {
            rest.push(normalize_spec(base, t))
        }
    }
}

/// The files that a `.toc` manifest refers to; `None` where it is not UTF-8.
pub fn toc_references(toc_path: &str, content: &[u8]) -> (r: Option<Vec<String>>)
    ensures
        match r {
            Some(v) => vstd::utf8::valid_utf8(content@) && string_views(v@) == toc_refs(
                toc_path@,
                lines_spec(decode_utf8(content@)),
            ),
            None => !vstd::utf8::valid_utf8(content@),
        },
{
    let text = utf8_string(slice_to_vec(content))?;
    let cs = chars_of(text.as_str());
    let lines = lines_chars(cs.as_slice());
    let mut out: Vec<String> = Vec::new();
    let mut k: usize = 0;
    while k < lines.len()
        invariant
            k <= lines@.len(),
            views(lines@) == lines_spec(decode_utf8(content@)),
            string_views(out@) == toc_refs(toc_path@, views(lines@).subrange(0, k as int)),
        decreases lines@.len() - k,
    {
        let t = trim_chars(lines[k].as_slice());
        proof {
            assert(views(lines@).subrange(0, k as int + 1).drop_last() =~= views(lines@).subrange(0, k as int));
            assert(views(lines@)[k as int] == lines@[k as int]@);
        }
        if t.len() > 0 && t[0] != '#' {
            let ts = string_of(t.as_slice());
            let ghost before = string_views(out@);
            let p = normalize_path(toc_path, ts.as_str());
            out.push(p);
            assert(string_views(out@) =~= before.push(normalize_spec(toc_path@, t@)));
        }
        k = k + 1;
    }
    assert(views(lines@).subrange(0, k as int) =~= views(lines@));
    Some(out)
}

/// An XML element's local name and its attributes' local names and values.
pub type ElementView = (Seq<char>, Seq<(Seq<char>, Seq<char>)>);

/// The start elements of an XML document, in order, or `None` where the
/// reader reports an error.
pub uninterp spec fn xml_starts_of(b: Seq<u8>) -> Option<Seq<ElementView>>;

pub open spec fn attrs_view(a: Seq<(String, String)>) -> Seq<(Seq<char>, Seq<char>)> {
    a.map_values(|p: (String, String)| (p.0@, p.1@))
}

pub open spec fn element_view(e: (String, Vec<(String, String)>)) -> ElementView {
    (e.0@, attrs_view(e.1@))
}

pub open spec fn elements_view(v: Seq<(String, Vec<(String, String)>)>) -> Seq<ElementView> {
    v.map_values(|e: (String, Vec<(String, String)>)| element_view(e))
}

#[verifier::external_type_specification]
#[verifier::external_body]
pub struct ExXmlError(xml::reader::Error);

/// Relies on xml::reader::EventReader: the start elements it reports, with
/// their attributes, until the end or the first error; the outcome depends
/// on the bytes alone.
#[verifier::external_body]
fn xml_start_elements(b: &[u8]) -> (r: Result<Vec<(String, Vec<(String, String)>)>, xml::reader::Error>)
    ensures
        match r {
            Ok(v) => xml_starts_of(b@) == Some(elements_view(v@)),
            Err(_) => xml_starts_of(b@) is None,
        },
{
    let mut out = Vec::new();
    for event in xml::reader::EventReader::new(b) {
        if let xml::reader::XmlEvent::StartElement { name, attributes, .. } = event? {
            out.push((name.local_name, attributes.into_iter().map(|a| (a.name.local_name, a.value)).collect()));
        }
    }
    Ok(out)
}

/// The bytes of a document without a leading UTF-8 byte-order mark.
pub open spec fn strip_bom(b: Seq<u8>) -> Seq<u8> {
    if b.len() >= 3 && b[0] == 0xef && b[1] == 0xbb && b[2] == 0xbf {
        b.subrange(3, b.len() as int)
    } else {
        b
    }
}

pub open spec fn ascii_lower_char(c: char) -> char {
    if 'A' <= c <= 'Z' {
        ((c as u32 + 32) as u8) as char
    } else {
        c
    }
}

/// The name of the element that pulls in another XML file.
pub open spec fn inclusion_tag() -> Seq<char> {
    seq!['i', 'n', 'c', 'l', 'u', 'd', 'e']
}

/// Whether an element's name is `script` or the inclusion tag, in any case.
pub open spec fn is_ref_element(n: Seq<char>) -> bool {
    n.map_values(|c: char| ascii_lower_char(c)) == "script"@ || n.map_values(
        |c: char| ascii_lower_char(c),
    ) == inclusion_tag()
}

/// The values of `file` attributes, resolved against the document's path.
pub open spec fn attr_refs(base: Seq<char>, a: Seq<(Seq<char>, Seq<char>)>) -> Seq<Seq<char>>
    decreases a.len(),
{
    if a.len() == 0 {
        Seq::empty()
    } else {
        let rest = attr_refs(base, a.drop_last());
        if a.last().0 == "file"@ {
            rest.push(normalize_spec(base, a.last().1))
        } else {
            rest
        }
    }
}

/// The references of script and inclusion elements, in document order.
pub open spec fn element_refs(base: Seq<char>, els: Seq<ElementView>) -> Seq<Seq<char>>
    decreases els.len(),
{
    if els.len() == 0 {
        Seq::empty()
    } else {
        let rest = element_refs(base, els.drop_last());
        if is_ref_element(els.last().0) {
            rest + attr_refs(base, els.last().1)
        } else {
            rest
        }
    }
}

fn lower_ascii(s: &String) -> (r: Vec<char>)
    ensures
        r@ == s@.map_values(|c: char| ascii_lower_char(c)),
{
    let cs = chars_of(s.as_str());
    let mut out: Vec<char> = Vec::new();
    let mut i: usize = 0;
    while i < cs.len()
        invariant
            i <= cs@.len(),
            cs@ == s@,
            out@ == cs@.subrange(0, i as int).map_values(|c: char| ascii_lower_char(c)),
        decreases cs@.len() - i,
    {
        let c = cs[i];
        let l = if 'A' <= c && c <= 'Z' {
            ((c as u8) + 32) as char
        } else {
            c
        };
        out.push(l);
        i = i + 1;
        assert(out@ =~= cs@.subrange(0, i as int).map_values(|c: char| ascii_lower_char(c)));
    }
    assert(cs@.subrange(0, i as int) =~= cs@);
    out
}

fn same_chars(a: &[char], b: &[char]) -> (r: bool)
    ensures
        r == (a@ == b@),
{
    if a.len() != b.len() {
        return false;
    }
    let r = has_at_exec(a, 0, b);
    assert(r ==> a@.subrange(0, b@.len() as int) =~= a@);
    proof {
        if a@ == b@ {
            assert(a@.subrange(0, b@.len() as int) =~= b@);
        }
    }
    r
}

/// Why a fetched file's references could not be read.
#[derive(Debug, Clone, Copy, PartialEq, Eq, Structural)]
pub enum WalkError {
    /// The XML reader reported an error.
    Xml,
    /// A manifest is not UTF-8 text.
    NotText,
}

/// The files that an XML document refers to through the `file` attribute
/// of its script and inclusion elements.
pub fn xml_references(xml_path: &str, content: &[u8]) -> (r: Result<Vec<String>, WalkError>)
    ensures
        match xml_starts_of(strip_bom(content@)) {
            Some(els) => r is Ok && string_views(r->Ok_0@) == element_refs(xml_path@, els),
            None => r == Err::<Vec<String>, WalkError>(WalkError::Xml),
        },
{
    let n = content.len();
    let body = if n >= 3 && content[0] == 0xef && content[1] == 0xbb && content[2] == 0xbf {
        &content[3..n]
    } else {
        content
    };
    assert(body@ == strip_bom(content@));
    let els = match xml_start_elements(body) {
        Err(_) => {
            return Err(WalkError::Xml);
        },
        Ok(v) => v,
    };
    let script = chars_of("script");
    let incl: Vec<char> = vec!['i', 'n', 'c', 'l', 'u', 'd', 'e'];
    let file = chars_of("file");
    let mut out: Vec<String> = Vec::new();
    let mut k: usize = 0;
    while k < els.len()
        invariant
            k <= els@.len(),
            script@ == "script"@,
            incl@ == inclusion_tag(),
            file@ == "file"@,
            string_views(out@) == element_refs(xml_path@, elements_view(els@).subrange(0, k as int)),
        decreases els@.len() - k,
    {
        let ghost ev = elements_view(els@);
        assert(ev.subrange(0, k as int + 1).drop_last() =~= ev.subrange(0, k as int));
        assert(ev[k as int] == element_view(els@[k as int]));
        let name = lower_ascii(&els[k].0);
        if same_chars(name.as_slice(), script.as_slice()) || same_chars(name.as_slice(), incl.as_slice()) {
            let attrs = &els[k].1;
            let ghost base_out = string_views(out@);
            let mut j: usize = 0;
            while j < attrs.len()
                invariant
                    j <= attrs@.len(),
                    file@ == "file"@,
                    string_views(out@) == base_out + attr_refs(xml_path@, attrs_view(attrs@).subrange(0, j as int)),
                decreases attrs@.len() - j,
            {
                let ghost av = attrs_view(attrs@);
                assert(av.subrange(0, j as int + 1).drop_last() =~= av.subrange(0, j as int));
                assert(av[j as int] == (attrs@[j as int].0@, attrs@[j as int].1@));
                let an = chars_of(attrs[j].0.as_str());
                if same_chars(an.as_slice(), file.as_slice()) {
                    let ghost before = string_views(out@);
                    let p = normalize_path(xml_path, attrs[j].1.as_str());
                    out.push(p);
                    assert(string_views(out@) =~= before.push(normalize_spec(xml_path@, attrs@[j as int].1@)));
                    assert(base_out + attr_refs(xml_path@, av.subrange(0, j as int + 1)) =~= (base_out + attr_refs(xml_path@, av.subrange(0, j as int))).push(normalize_spec(xml_path@, attrs@[j as int].1@)));
                }
                j = j + 1;
            }
            assert(attrs_view(attrs@).subrange(0, j as int) =~= attrs_view(attrs@));
        }
        k = k + 1;
    }
    assert(elements_view(els@).subrange(0, k as int) =~= elements_view(els@));
    Ok(out)
}

/// The two manifests that may seed a directory `D\\`: `D\\N_P.toc` and
/// `D\\N.toc`, where `N` is the directory's own name and `P` the product.
pub open spec fn toc_candidates_spec(dir: Seq<char>, product: Seq<char>) -> Option<(Seq<char>, Seq<char>)> {
    if dir.len() == 0 {
        None
    } else {
        let name = split_on(dir.drop_last(), '\\').last();
        Some((dir + name + seq!['_'] + product + ".toc"@, dir + name + ".toc"@))
    }
}

/// The manifest names to try for a directory, which ends with a separator.
pub fn toc_candidates(dir: &str, product: &str) -> (r: Option<(String, String)>)
    ensures
        match toc_candidates_spec(dir@, product@) {
            Some((a, b)) => match r {
                Some(p) => p.0@ == a && p.1@ == b,
                None => false,
            },
            None => r is None,
        },
{
    let cs = chars_of(dir);
    let n = cs.len();
    if n == 0 {
        return None;
    }
    let segs = split_chars(&cs.as_slice()[0..n - 1], '\\');
    proof {
        crate::text::lemma_split_nonempty(cs@.subrange(0, n - 1), '\\');
        assert(cs@.subrange(0, n - 1) =~= cs@.drop_last());
        assert(views(segs@).last() == segs@[segs@.len() - 1]@);
    }
    let name = &segs[segs.len() - 1];
    let ext = chars_of(".toc");
    let mut first = cs.clone();
    first.extend_from_slice(name.as_slice());
    first.push('_');
    first.extend_from_slice(chars_of(product).as_slice());
    first.extend_from_slice(ext.as_slice());
    let mut second = cs.clone();
    second.extend_from_slice(name.as_slice());
    second.extend_from_slice(ext.as_slice());
    Some((string_of(first.as_slice()), string_of(second.as_slice())))
}

/// Whether a path ends with `ext`.
pub open spec fn ends_with(p: Seq<char>, ext: Seq<char>) -> bool {
    p.len() >= ext.len() && p.subrange(p.len() - ext.len(), p.len() as int) == ext
}

fn ends_with_exec(p: &str, ext: &str) -> (r: bool)
    ensures
        r == ends_with(p@, ext@),
{
    let pc = chars_of(p);
    let ec = chars_of(ext);
    if ec.len() > pc.len() {
        return false;
    }
    has_at_exec(pc.as_slice(), pc.len() - ec.len(), ec.as_slice())
}

/// The references of a fetched file: those of a `.toc` manifest or of an
/// `.xml` document; other files refer to nothing.
pub fn references(file: &str, content: &[u8]) -> (r: Result<Vec<String>, WalkError>)
    ensures
        ends_with(file@, ".toc"@) ==> match r {
            Ok(v) => vstd::utf8::valid_utf8(content@) && string_views(v@) == toc_refs(
                file@,
                lines_spec(decode_utf8(content@)),
            ),
            Err(e) => e == WalkError::NotText && !vstd::utf8::valid_utf8(content@),
        },
        !ends_with(file@, ".toc"@) && ends_with(file@, ".xml"@) ==> match xml_starts_of(
            strip_bom(content@),
        ) {
            Some(els) => r is Ok && string_views(r->Ok_0@) == element_refs(file@, els),
            None => r == Err::<Vec<String>, WalkError>(WalkError::Xml),
        },
        !ends_with(file@, ".toc"@) && !ends_with(file@, ".xml"@) ==> r is Ok && r->Ok_0@.len()
            == 0,
{
    if ends_with_exec(file, ".toc") {
        match toc_references(file, content) {
            Some(v) => Ok(v),
            None => Err(WalkError::NotText),
        }
    } else if ends_with_exec(file, ".xml") {
        xml_references(file, content)
    } else {
        Ok(Vec::new())
    }
}

/// The lower case of a text, as `str::to_lowercase` gives it.
pub uninterp spec fn lower_of(s: Seq<char>) -> Seq<char>;

/// Relies on str::to_lowercase: the result depends on the characters alone.
#[verifier::external_body]
fn lowercase(s: &str) -> (r: String)
    ensures
        r@ == lower_of(s@),
{
    s.to_lowercase()
}

/// Texts written one after another.
pub open spec fn concat(parts: Seq<Seq<char>>) -> Seq<char>
    decreases parts.len(),
{
    if parts.len() == 0 {
        Seq::empty()
    } else {
        concat(parts.drop_last()) + parts.last()
    }
}

/// The id of the last entry whose name is `k`.
pub open spec fn name_lookup(e: Seq<(Seq<char>, u32)>, k: Seq<char>) -> Option<u32>
    decreases e.len(),
{
    if e.len() == 0 {
        None
    } else if e.last().0 == k {
        Some(e.last().1)
    } else {
        name_lookup(e.drop_last(), k)
    }
}

/// File ids by lower-case file name; where a name repeats, the entry added
/// last counts.
pub struct FileNames {
    entries: Vec<(String, u32)>,
}

impl FileNames {
    pub closed spec fn view(&self) -> Seq<(Seq<char>, u32)> {
        self.entries@.map_values(|p: (String, u32)| (p.0@, p.1))
    }

    pub fn new() -> (r: FileNames)
        ensures
            r@ == Seq::<(Seq<char>, u32)>::empty(),
    {
        let r = FileNames { entries: Vec::new() };
        assert(r@ =~= Seq::<(Seq<char>, u32)>::empty());
        r
    }

    /// Adds a file id under the lower case of its name's parts, joined.
    pub fn add(&mut self, fdid: u32, parts: &Vec<String>)
        ensures
            final(self)@ == old(self)@.push((lower_of(concat(string_views(parts@))), fdid)),
    {
        let mut joined: Vec<char> = Vec::new();
        let mut i: usize = 0;
        while i < parts.len()
            invariant
                i <= parts@.len(),
                joined@ == concat(string_views(parts@).subrange(0, i as int)),
            decreases parts@.len() - i,
        {
            let mut c = chars_of(parts[i].as_str());
            assert(string_views(parts@).subrange(0, i as int + 1).drop_last() =~= string_views(parts@).subrange(0, i as int));
            joined.append(&mut c);
            i = i + 1;
        }
        assert(string_views(parts@).subrange(0, i as int) =~= string_views(parts@));
        let name = string_of(joined.as_slice());
        let key = lowercase(name.as_str());
        let ghost before = self@;
        self.entries.push((key, fdid));
        assert(self@ =~= before.push((lower_of(concat(string_views(parts@))), fdid)));
    }

    /// The file id of a name, compared in lower case.
    pub fn find(&self, file: &str) -> (r: Option<FileDataID>)
        ensures
            match name_lookup(self@, lower_of(file@)) {
                Some(id) => r == Some(FileDataID(id)),
                None => r is None,
            },
    {
        let key = lowercase(file);
        let mut i = self.entries.len();
        assert(self.entries@.subrange(0, i as int).map_values(|p: (String, u32)| (p.0@, p.1)) =~= self@);
        while i > 0
            invariant
                i <= self.entries@.len(),
                key@ == lower_of(file@),
                name_lookup(self@, key@) == name_lookup(
                    self.entries@.subrange(0, i as int).map_values(|p: (String, u32)| (p.0@, p.1)),
                    key@,
                ),
            decreases i,
        {
            assert(self.entries@.subrange(0, i as int).map_values(|p: (String, u32)| (p.0@, p.1)).drop_last()
                =~= self.entries@.subrange(0, i as int - 1).map_values(|p: (String, u32)| (p.0@, p.1)));
            if self.entries[i - 1].0 == key {
                return Some(FileDataID(self.entries[i - 1].1));
            }
            i = i - 1;
        }
        None
    }
}

} // verus!
