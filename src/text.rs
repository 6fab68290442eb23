//! Character-level helpers shared by the text formats.
use vstd::prelude::*;
use vstd::utf8::{decode_utf8, valid_utf8};

verus! {

broadcast use vstd::string::group_string_axioms;

/// The characters of a string slice.
pub fn chars_of(s: &str) -> (r: Vec<char>)
    ensures
        r@ == s@,
{
    let mut v: Vec<char> = Vec::new();
    for c in it: s.chars()
        invariant
            v@ == it.seq().take(it.index() as int),
    {
        v.push(c);
    }
    v
}

/// Relies on String::from_utf8: it succeeds exactly on valid UTF-8 and then
/// holds the characters that the bytes encode.
#[verifier::external_body]
pub(crate) fn utf8_string(b: Vec<u8>) -> (r: Option<String>)
    ensures
        r is Some <==> valid_utf8(b@),
        r matches Some(s) ==> s@ == decode_utf8(b@),
{
    String::from_utf8(b).ok()
}

/// Relies on String::push: appends one character.
#[verifier::external_body]
pub(crate) fn push_char(s: &mut String, c: char)
    ensures
        final(s)@ == old(s)@.push(c),
{
    s.push(c)
}

/// The string of a sequence of characters.
pub fn string_of(cs: &[char]) -> (r: String)
    ensures
        r@ == cs@,
{
    let mut s = String::new();
    let mut i: usize = 0;
    while i < cs.len()
        invariant
            i <= cs@.len(),
            s@ == cs@.subrange(0, i as int),
        decreases cs@.len() - i,
    {
        push_char(&mut s, cs[i]);
        i = i + 1;
        assert(s@ =~= cs@.subrange(0, i as int));
    }
    assert(cs@.subrange(0, cs@.len() as int) =~= cs@);
    s
}

/// The pieces of `s` between occurrences of `sep`, as `str::split` gives
/// them: one more piece than there are separators.
pub open spec fn split_on(s: Seq<char>, sep: char) -> Seq<Seq<char>>
    decreases s.len(),
{
    if s.len() == 0 {
        seq![Seq::empty()]
    } else {
        let rest = split_on(s.drop_last(), sep);
        if s.last() == sep {
            rest.push(Seq::empty())
        } else {
            rest.update(rest.len() - 1, rest.last().push(s.last()))
        }
    }
}

pub proof fn lemma_split_nonempty(s: Seq<char>, sep: char)
    ensures
        split_on(s, sep).len() >= 1,
    decreases s.len(),
{
    if s.len() > 0 {
        lemma_split_nonempty(s.drop_last(), sep);
    }
}

/// Segments joined with a separator between each two.
pub open spec fn join(parts: Seq<Seq<char>>, sep: char) -> Seq<char>
    decreases parts.len(),
{
    if parts.len() == 0 {
        Seq::empty()
    } else if parts.len() == 1 {
        parts[0]
    } else {
        join(parts.drop_last(), sep).push(sep) + parts.last()
    }
}

pub open spec fn free_of(s: Seq<char>, c: char) -> bool {
    forall|i: int| 0 <= i < s.len() ==> s[i] != c
}

/// Splitting text that ends in a separator-free tail: the tail extends the
/// last piece.
pub proof fn lemma_split_append(s: Seq<char>, t: Seq<char>, sep: char)
    requires
        free_of(t, sep),
    ensures
        split_on(s + t, sep) == split_on(s, sep).update(
            split_on(s, sep).len() - 1,
            split_on(s, sep).last() + t,
        ),
    decreases t.len(),
{
    lemma_split_nonempty(s, sep);
    if t.len() == 0 {
        assert(s + t =~= s);
        assert(split_on(s, sep).last() + t =~= split_on(s, sep).last());
        assert(split_on(s, sep).update(split_on(s, sep).len() - 1, split_on(s, sep).last() + t)
            =~= split_on(s, sep));
    } else {
        let u = t.drop_last();
        lemma_split_append(s, u, sep);
        assert((s + t).drop_last() =~= s + u);
        assert((s + t).last() == t.last());
        let p = split_on(s, sep);
        lemma_split_nonempty(s + u, sep);
        assert(t[t.len() - 1] != sep);
        let rest = split_on(s + u, sep);
        assert(rest == p.update(p.len() - 1, p.last() + u));
        assert(rest.len() == p.len());
        assert(rest.last() == p.last() + u);
        assert(split_on(s + t, sep) == rest.update(rest.len() - 1, rest.last().push(t.last())));
        assert((p.last() + u).push(t.last()) =~= p.last() + t);
        assert(split_on(s + t, sep) =~= p.update(p.len() - 1, p.last() + t));
    }
}

/// Splitting joined separator-free pieces gives the pieces back.
pub proof fn lemma_split_join(parts: Seq<Seq<char>>, sep: char)
    requires
        parts.len() >= 1,
        forall|i: int| 0 <= i < parts.len() ==> free_of(#[trigger] parts[i], sep),
    ensures
        split_on(join(parts, sep), sep) == parts,
    decreases parts.len(),
{
    if parts.len() == 1 {
        lemma_split_append(Seq::empty(), parts[0], sep);
        assert(Seq::<char>::empty() + parts[0] =~= parts[0]);
        assert(split_on(Seq::<char>::empty(), sep) == seq![Seq::<char>::empty()]);
        assert(Seq::<char>::empty() + parts[0] =~= parts[0]);
        assert(seq![Seq::<char>::empty()].update(0, Seq::<char>::empty() + parts[0]) =~= parts);
    } else {
        let front = parts.drop_last();
        lemma_split_join(front, sep);
        let j = join(front, sep).push(sep);
        assert(j.drop_last() =~= join(front, sep));
        assert(split_on(j, sep) == front.push(Seq::empty()));
        lemma_split_append(j, parts.last(), sep);
        assert(Seq::<char>::empty() + parts.last() =~= parts.last());
        assert(front.push(Seq::empty()).update(front.len() as int, Seq::<char>::empty() + parts.last()) =~= parts);
    }
}

/// A join holds no character that neither the pieces nor the separator do.
pub proof fn lemma_join_free(parts: Seq<Seq<char>>, sep: char, c: char)
    requires
        sep != c,
        forall|i: int| 0 <= i < parts.len() ==> free_of(#[trigger] parts[i], c),
    ensures
        free_of(join(parts, sep), c),
    decreases parts.len(),
{
    if parts.len() > 1 {
        lemma_join_free(parts.drop_last(), sep, c);
        let a = join(parts.drop_last(), sep).push(sep);
        assert(free_of(parts.last(), c));
        assert forall|i: int| 0 <= i < (a + parts.last()).len() implies (a + parts.last())[i] != c by {
            if i >= a.len() {
                assert((a + parts.last())[i] == parts.last()[i - a.len()]);
            }
        }
    } else if parts.len() == 1 {
        assert(free_of(parts[0], c));
    }
}

/// The lines of text that is separator-free lines each ended by `\n`.
pub proof fn lemma_lines_of_join(ls: Seq<Seq<char>>)
    requires
        ls.len() >= 1,
        forall|i: int| 0 <= i < ls.len() ==> free_of(#[trigger] ls[i], '\n') && free_of(ls[i], '\r'),
    ensures
        lines_spec(join(ls, '\n').push('\n')) == ls,
{
    lemma_split_join(ls, '\n');
    let t = join(ls, '\n').push('\n');
    assert(t.drop_last() =~= join(ls, '\n'));
    assert(split_on(t, '\n') == ls.push(Seq::empty()));
    assert(ls.push(Seq::<char>::empty()).drop_last() =~= ls);
    assert forall|i: int| 0 <= i < ls.len() implies strip_cr(ls[i]) == ls[i] by {
        if ls[i].len() > 0 {
            assert(ls[i][ls[i].len() - 1] != '\r');
        }
    }
    assert(stripped(ls) =~= ls);
}

/// A line without the carriage return that ended it.
pub open spec fn strip_cr(l: Seq<char>) -> Seq<char> {
    if l.len() > 0 && l.last() == '\r' {
        l.drop_last()
    } else {
        l
    }
}

/// The sequences that a sequence of vectors holds.
pub open spec fn views(v: Seq<Vec<char>>) -> Seq<Seq<char>> {
    v.map_values(|x: Vec<char>| x@)
}

pub open spec fn stripped(p: Seq<Seq<char>>) -> Seq<Seq<char>> {
    p.map_values(|l: Seq<char>| strip_cr(l))
}

/// The lines of `s`, as `str::lines` gives them: split at `\n`, without a
/// final empty line, each line that a `\n` ends without its `\r`.
pub open spec fn lines_spec(s: Seq<char>) -> Seq<Seq<char>> {
    let p = split_on(s, '\n');
    let body = stripped(p.drop_last());
    if p.last().len() == 0 {
        body
    } else {
        body.push(p.last())
    }
}

/// Splits a character sequence at each occurrence of `sep`.
pub fn split_chars(s: &[char], sep: char) -> (r: Vec<Vec<char>>)
    ensures
        views(r@) == split_on(s@, sep),
{
    let mut pieces: Vec<Vec<char>> = Vec::new();
    let mut cur: Vec<char> = Vec::new();
    let mut i: usize = 0;
    while i < s.len()
        invariant
            i <= s@.len(),
            views(pieces@).push(cur@) == split_on(s@.subrange(0, i as int), sep),
        decreases s@.len() - i,
    {
        let c = s[i];
        let ghost prefix = s@.subrange(0, i as int + 1);
        assert(prefix.drop_last() =~= s@.subrange(0, i as int));
        let ghost before = views(pieces@);
        if c == sep {
            let done = cur;
            pieces.push(done);
            cur = Vec::new();
            assert(views(pieces@) =~= before.push(done@));
            assert(views(pieces@).push(cur@) =~= split_on(prefix, sep));
        } else {
            cur.push(c);
            assert(views(pieces@).push(cur@) =~= split_on(prefix, sep));
        }
        i = i + 1;
    }
    assert(s@.subrange(0, s@.len() as int) =~= s@);
    let ghost before = views(pieces@);
    let last = cur;
    pieces.push(last);
    assert(views(pieces@) =~= before.push(last@));
    pieces
}

/// The lines of a character sequence.
pub fn lines_chars(s: &[char]) -> (r: Vec<Vec<char>>)
    ensures
        views(r@) == lines_spec(s@),
{
    let mut p = split_chars(s, '\n');
    proof {
        lemma_split_nonempty(s@, '\n');
    }
    let ghost pv = views(p@);
    let last = p.pop().unwrap();
    let mut out: Vec<Vec<char>> = Vec::new();
    let mut i: usize = 0;
    while i < p.len()
        invariant
            i <= p@.len(),
            p@.len() + 1 == pv.len(),
            forall|j: int| 0 <= j < p@.len() ==> #[trigger] p@[j]@ == pv[j],
            views(out@) == stripped(pv.drop_last()).subrange(0, i as int),
        decreases p@.len() - i,
    {
        let l = &p[i];
        let n = l.len();
        let ghost before = views(out@);
        let line = if n > 0 && l[n - 1] == '\r' {
            vstd::slice::slice_to_vec(&l.as_slice()[0..n - 1])
        } else {
            vstd::slice::slice_to_vec(l.as_slice())
        };
        assert(line@ == strip_cr(pv[i as int])) by {
            if n > 0 && l@[n - 1] == '\r' {
                assert(l@.subrange(0, n - 1) =~= l@.drop_last());
            }
        }
        out.push(line);
        assert(views(out@) =~= before.push(line@));
        assert(pv.drop_last()[i as int] == pv[i as int]);
        assert(stripped(pv.drop_last()).subrange(0, i as int + 1) =~= stripped(
            pv.drop_last(),
        ).subrange(0, i as int).push(strip_cr(pv[i as int])));
        i = i + 1;
    }
    assert(stripped(pv.drop_last()).subrange(0, i as int)
        =~= stripped(pv.drop_last()));
    if last.len() > 0 {
        let ghost before = views(out@);
        let lv = last;
        out.push(lv);
        assert(views(out@) =~= before.push(lv@));
    }
    out
}

} // verus!
