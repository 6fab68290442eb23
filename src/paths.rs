//! File paths inside a build, and object paths and URLs on the CDN.
use vstd::prelude::*;

use crate::info::string_views;
use crate::text::{chars_of, join, split_chars, split_on, string_of, views};

verus! {

/// A path with every `/` turned into `\\`.
pub open spec fn backslash_chars(s: Seq<char>) -> Seq<char> {
    s.map_values(|c: char| if c == '/' { '\\' } else { c })
}

pub open spec fn is_parent(p: Seq<char>) -> bool {
    p == seq!['.', '.']
}

/// One segment applied to a stack of directories: `..` pops, others push.
pub open spec fn step(stack: Seq<Seq<char>>, part: Seq<char>) -> Seq<Seq<char>> {
    if is_parent(part) {
        if stack.len() > 0 {
            stack.drop_last()
        } else {
            stack
        }
    } else {
        stack.push(part)
    }
}

pub open spec fn walk(stack: Seq<Seq<char>>, parts: Seq<Seq<char>>) -> Seq<Seq<char>>
    decreases parts.len(),
{
    if parts.len() == 0 {
        stack
    } else {
        walk(step(stack, parts[0]), parts.drop_first())
    }
}

/// `file` resolved against the directory of `base`, with backslashes.
pub open spec fn normalize_spec(base: Seq<char>, file: Seq<char>) -> Seq<char> {
    join(
        walk(
            split_on(backslash_chars(base), '\\').drop_last(),
            split_on(backslash_chars(file), '\\'),
        ),
        '\\',
    )
}

fn backslashed(s: &str) -> (r: Vec<char>)
    ensures
        r@ == backslash_chars(s@),
{
    let cs = chars_of(s);
    let mut out: Vec<char> = Vec::new();
    let mut i: usize = 0;
    while i < cs.len()
        invariant
            i <= cs@.len(),
            out@ == backslash_chars(cs@.subrange(0, i as int)),
        decreases cs@.len() - i,
    {
        let c = cs[i];
        out.push(if c == '/' { '\\' } else { c });
        i = i + 1;
        assert(out@ =~= backslash_chars(cs@.subrange(0, i as int)));
    }
    assert(cs@.subrange(0, i as int) =~= cs@);
    out
}

fn join_chars(parts: &Vec<Vec<char>>, sep: char) -> (r: Vec<char>)
    ensures
        r@ == join(views(parts@), sep),
{
    let mut out: Vec<char> = Vec::new();
    let mut i: usize = 0;
    while i < parts.len()
        invariant
            i <= parts@.len(),
            out@ == join(views(parts@).subrange(0, i as int), sep),
        decreases parts@.len() - i,
    {
        let ghost prefix = views(parts@).subrange(0, i as int + 1);
        assert(prefix.drop_last() =~= views(parts@).subrange(0, i as int));
        if i > 0 {
            out.push(sep);
        }
        let mut piece = parts[i].clone();
        let ghost pv = piece@;
        assert(pv == parts@[i as int]@);
        out.append(&mut piece);
        i = i + 1;
        assert(out@ =~= join(views(parts@).subrange(0, i as int), sep));
    }
    assert(views(parts@).subrange(0, i as int) =~= views(parts@));
    out
}

/// Resolves `file` against the directory that holds `base`: both are read
/// with either separator, `..` leaves a directory, and the result uses
/// backslashes.
pub fn normalize_path(base: &str, file: &str) -> (r: String)
    ensures
        r@ == normalize_spec(base@, file@),
{
    let b = backslashed(base);
    let f = backslashed(file);
    let mut stack = split_chars(b.as_slice(), '\\');
    proof {
        crate::text::lemma_split_nonempty(b@, '\\');
    }
    let ghost sv = views(stack@);
    stack.pop();
    assert(views(stack@) =~= sv.drop_last());
    let parts = split_chars(f.as_slice(), '\\');
    let ghost goal = normalize_spec(base@, file@);
    assert(views(parts@).subrange(0, parts@.len() as int) =~= views(parts@));
    let mut i: usize = 0;
    while i < parts.len()
        invariant
            i <= parts@.len(),
            goal == join(walk(views(stack@), views(parts@).subrange(i as int, parts@.len() as int)), '\\'),
        decreases parts@.len() - i,
    {
        let ghost rest = views(parts@).subrange(i as int, parts@.len() as int);
        assert(rest.drop_first() =~= views(parts@).subrange(i as int + 1, parts@.len() as int));
        assert(rest[0] == parts@[i as int]@);
        let p = &parts[i];
        let ghost before = views(stack@);
        if p.len() == 2 && p[0] == '.' && p[1] == '.' {
            assert(p@ =~= seq!['.', '.']);
            if stack.len() > 0 {
                stack.pop();
                assert(views(stack@) =~= before.drop_last());
            }
        } else {
            assert(!is_parent(p@)) by {
                if is_parent(p@) {
                    assert(p@.len() == 2 && p@[0] == '.' && p@[1] == '.');
                }
            }
            stack.push(p.clone());
            assert(views(stack@) =~= before.push(p@));
        }
        i = i + 1;
    }
    assert(views(parts@).subrange(i as int, parts@.len() as int) =~= Seq::<Seq<char>>::empty());
    let joined = join_chars(&stack, '\\');
    string_of(joined.as_slice())
}

/// A lowercase hexadecimal digit.
pub open spec fn hex_char(d: nat) -> char {
    if d < 10 {
        seq!['0', '1', '2', '3', '4', '5', '6', '7', '8', '9'][d as int]
    } else {
        seq!['a', 'b', 'c', 'd', 'e', 'f'][d - 10]
    }
}

/// The last `n` hexadecimal digits of `v`, zero-padded.
pub open spec fn hex_fixed(v: nat, n: nat) -> Seq<char>
    decreases n,
{
    if n == 0 {
        Seq::empty()
    } else {
        hex_fixed(v / 16, (n - 1) as nat).push(hex_char(v % 16))
    }
}

fn hex_digit(d: u128) -> (c: char)
    requires
        d < 16,
    ensures
        c == hex_char(d as nat),
{
    let digits = ['0', '1', '2', '3', '4', '5', '6', '7', '8', '9', 'a', 'b', 'c', 'd', 'e', 'f'];
    let c = digits[d as usize];
    proof {
        if d < 10 {
            assert(hex_char(d as nat) == seq!['0', '1', '2', '3', '4', '5', '6', '7', '8', '9'][d as int]);
        }
    }
    assert(c == hex_char(d as nat)) by {
        assert(digits@ =~= seq!['0', '1', '2', '3', '4', '5', '6', '7', '8', '9', 'a', 'b', 'c', 'd', 'e', 'f']);
    }
    c
}

fn hex_fixed_exec(v: u128, n: usize) -> (r: Vec<char>)
    ensures
        r@ == hex_fixed(v as nat, n as nat),
    decreases n,
{
    if n == 0 {
        Vec::new()
    } else {
        let mut r = hex_fixed_exec(v / 16, n - 1);
        r.push(hex_digit(v % 16));
        r
    }
}

/// The 32 lowercase hexadecimal digits of a hash.
pub fn hex32(hash: u128) -> (r: String)
    ensures
        r@ == hex_fixed(hash as nat, 32),
{
    let v = hex_fixed_exec(hash, 32);
    string_of(v.as_slice())
}

/// The object path of a hash under a tag: `T/H[0..2]/H[2..4]/H`, then the
/// suffix.
pub open spec fn cdn_path_spec(tag: Seq<char>, hash: u128, suffix: Seq<char>) -> Seq<char> {
    let h = hex_fixed(hash as nat, 32);
    tag + seq!['/'] + h.subrange(0, 2) + seq!['/'] + h.subrange(2, 4) + seq!['/'] + h + suffix
}

/// The CDN object path of a hash; `suffix` is appended where given.
pub fn cdn_path(tag: &str, hash: u128, suffix: Option<&str>) -> (r: String)
    ensures
        r@ == cdn_path_spec(
            tag@,
            hash,
            match suffix {
                Some(s) => s@,
                None => Seq::empty(),
            },
        ),
{
    let mut out = chars_of(tag);
    let h = hex_fixed_exec(hash, 32);
    proof {
        assert(h@.len() == 32) by {
            lemma_hex_fixed_len(hash as nat, 32);
        }
    }
    out.push('/');
    out.push(h[0]);
    out.push(h[1]);
    out.push('/');
    out.push(h[2]);
    out.push(h[3]);
    out.push('/');
    let mut hh = h.clone();
    out.append(&mut hh);
    match suffix {
        Some(s) => {
            let mut sc = chars_of(s);
            out.append(&mut sc);
        },
        None => {},
    }
    let ghost sfx = match suffix {
        Some(s) => s@,
        None => Seq::empty(),
    };
    assert(out@ =~= cdn_path_spec(tag@, hash, sfx));
    string_of(out.as_slice())
}

pub proof fn lemma_hex_fixed_len(v: nat, n: nat)
    ensures
        hex_fixed(v, n).len() == n,
    decreases n,
{
    if n > 0 {
        lemma_hex_fixed_len(v / 16, (n - 1) as nat);
    }
}

/// Rounds of tries over the host list before a fetch is given up.
pub const FETCH_ROUNDS: usize = 9;

/// The URL of try number `attempt` (from 0) of a fetch: the hosts are tried
/// in order, round after round; `None` once every round is spent.
pub open spec fn attempt_spec(prefixes: Seq<Seq<char>>, path: Seq<char>, attempt: nat) -> Option<
    Seq<char>,
> {
    if prefixes.len() == 0 || attempt / prefixes.len() >= FETCH_ROUNDS {
        None
    } else {
        Some(prefixes[(attempt % prefixes.len()) as int] + seq!['/'] + path)
    }
}

/// The URL to try at a given attempt of a fetch, if any is left.
pub fn attempt_url(prefixes: &Vec<String>, path: &str, attempt: usize) -> (r: Option<String>)
    ensures
        match attempt_spec(string_views(prefixes@), path@, attempt as nat) {
            Some(u) => r is Some && r->0@ == u,
            None => r is None,
        },
{
    let n = prefixes.len();
    if n == 0 || attempt / n >= FETCH_ROUNDS {
        return None;
    }
    let host = attempt % n;
    let mut url = chars_of(prefixes[host].as_str());
    url.push('/');
    let mut p = chars_of(path);
    url.append(&mut p);
    assert(string_views(prefixes@)[host as int] == prefixes@[host as int]@);
    Some(string_of(url.as_slice()))
}

} // verus!
