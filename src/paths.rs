use vstd::prelude::*;
use crate::text::{chars_of, occurs_at, push_char, string_from, tail_is};

verus! {

/// The first position at or after `i` where `pat` stands in `s`.
pub open spec fn first_occurrence_from(s: Seq<char>, pat: Seq<char>, i: int) -> Option<int>
    decreases s.len() + 1 - i,
{
    if i + pat.len() > s.len() {
        None
    } else if occurs_at(s, pat, i) {
        Some(i)
    } else {
        first_occurrence_from(s, pat, i + 1)
    }
}

/// `s` with its first occurrence of `pat` taken out (unchanged where there is none).
pub open spec fn remove_first(s: Seq<char>, pat: Seq<char>) -> Seq<char> {
    match first_occurrence_from(s, pat, 0) {
        Some(i) => s.subrange(0, i) + s.subrange(i + pat.len(), s.len() as int),
        None => s,
    }
}

/// A backslash becomes a forward slash; every other character stays.
pub open spec fn forward_slash(c: char) -> char {
    if c == '\\' {
        '/'
    } else {
        c
    }
}

/// `s` with every backslash turned into a forward slash.
pub open spec fn forward_slashes(s: Seq<char>) -> Seq<char> {
    s.map_values(|c: char| forward_slash(c))
}

/// `s` with a `/` put in front, unless it starts with one already.
pub open spec fn with_leading_slash(s: Seq<char>) -> Seq<char> {
    if s.len() > 0 && s[0] == '/' {
        s
    } else {
        seq!['/'] + s
    }
}

/// The table key of the file at `path` loaded from the directory `dir`.
pub open spec fn key_of(dir: Seq<char>, path: Seq<char>) -> Seq<char> {
    with_leading_slash(forward_slashes(remove_first(path, dir)))
}

/// The directory path of a key that ends in `index.html`: everything before it.
pub open spec fn index_alias(key: Seq<char>) -> Option<Seq<char>> {
    let n = "index.html"@.len();
    if key.len() >= n && key.subrange(key.len() - n, key.len() as int) == "index.html"@ {
        Some(key.subrange(0, key.len() - n))
    } else {
        None
    }
}

/// Whether `pat` stands in `s` at position `i`.
fn occurs_at_exec(s: &Vec<char>, pat: &Vec<char>, i: usize) -> (r: bool)
    requires
        i + pat@.len() <= s@.len(),
    ensures
        r == occurs_at(s@, pat@, i as int),
{
    let n = s.len();
    let mut j: usize = 0;
    while j < pat.len()
        invariant
            n == s@.len(),
            i + pat@.len() <= s@.len(),
            j <= pat@.len(),
            forall|k: int| 0 <= k < j ==> s@[i + k] == pat@[k],
        decreases pat@.len() - j,
    {
        if s[i + j] != pat[j] {
            assert(s@.subrange(i as int, i + pat@.len())[j as int] != pat@[j as int]);
            return false;
        }
        j = j + 1;
    }
    assert(s@.subrange(i as int, i + pat@.len()) =~= pat@);
    true
}

/// The first position where `pat` stands in `s`.
fn find_first(s: &Vec<char>, pat: &Vec<char>) -> (r: Option<usize>)
    ensures
        match r {
            Some(i) => first_occurrence_from(s@, pat@, 0) == Some(i as int) && i + pat@.len()
                <= s@.len(),
            None => first_occurrence_from(s@, pat@, 0) is None,
        },
{
    if pat.len() > s.len() {
        return None;
    }
    let last = s.len() - pat.len();
    let mut i: usize = 0;
    loop
        invariant
            last + pat@.len() == s@.len(),
            i <= last,
            first_occurrence_from(s@, pat@, 0) == first_occurrence_from(s@, pat@, i as int),
        decreases last - i,
    {
        if occurs_at_exec(s, pat, i) {
            return Some(i);
        }
        if i == last {
            assert(first_occurrence_from(s@, pat@, i + 1) is None);
            return None;
        }
        i = i + 1;
    }
}

/// Appends `cs[from..to]` to `out`, turning each backslash into a forward slash.
fn push_forward_slashed(out: &mut Vec<char>, cs: &Vec<char>, from: usize, to: usize)
    requires
        from <= to <= cs@.len(),
    ensures
        final(out)@ == old(out)@ + forward_slashes(cs@.subrange(from as int, to as int)),
{
    let ghost start = out@;
    let mut i: usize = from;
    while i < to
        invariant
            from <= i <= to <= cs@.len(),
            out@ == start + forward_slashes(cs@.subrange(from as int, i as int)),
        decreases to - i,
    {
        let c = cs[i];
        if c == '\\' {
            out.push('/');
        } else {
            out.push(c);
        }
        assert(forward_slashes(cs@.subrange(from as int, i + 1)) =~= forward_slashes(
            cs@.subrange(from as int, i as int),
        ).push(forward_slash(c)));
        i = i + 1;
    }
}

/// The table key of the file at `path` loaded from `dir`: the first occurrence of
/// `dir` taken out, backslashes turned into `/`, and a leading `/` made sure of.
pub fn normalize_key(dir: &str, path: &str) -> (r: String)
    ensures
        r@ == key_of(dir@, path@),
{
    let d = chars_of(dir);
    let p = chars_of(path);
    let mut rest: Vec<char> = Vec::new();
    match find_first(&p, &d) {
        Some(i) => {
            let plen = p.len();
            assert(i + d@.len() <= plen);
            push_forward_slashed(&mut rest, &p, 0, i);
            push_forward_slashed(&mut rest, &p, i + d.len(), plen);
            assert(forward_slashes(p@.subrange(0, i as int)) + forward_slashes(
                p@.subrange(i + d@.len(), p@.len() as int),
            ) =~= forward_slashes(remove_first(p@, d@)));
        },
        None => {
            push_forward_slashed(&mut rest, &p, 0, p.len());
            assert(p@.subrange(0, p@.len() as int) =~= p@);
        },
    }
    assert(rest@ =~= forward_slashes(remove_first(path@, dir@)));
    if rest.len() > 0 && rest[0] == '/' {
        string_from(&rest, 0)
    } else {
        let mut out = String::new();
        push_char(&mut out, '/');
        let mut i: usize = 0;
        while i < rest.len()
            invariant
                i <= rest@.len(),
                out@ == seq!['/'] + rest@.subrange(0, i as int),
            decreases rest@.len() - i,
        {
            push_char(&mut out, rest[i]);
            assert(seq!['/'] + rest@.subrange(0, i + 1) =~= (seq!['/'] + rest@.subrange(
                0,
                i as int,
            )).push(rest@[i as int]));
            i = i + 1;
        }
        assert(rest@.subrange(0, rest@.len() as int) =~= rest@);
        out
    }
}

/// The directory key that a key ending in `index.html` also stands under:
/// everything before `index.html`, kept as it is.
pub fn index_dir_of(key: &str) -> (r: Option<String>)
    ensures
        match r {
            Some(s) => index_alias(key@) == Some(s@),
            None => index_alias(key@) is None,
        },
{
    let cs = chars_of(key);
    let n = "index.html".unicode_len();
    if cs.len() < n {
        return None;
    }
    let start = cs.len() - n;
    if tail_is(&cs, start, "index.html") {
        let mut out = String::new();
        let mut i: usize = 0;
        while i < start
            invariant
                start <= cs@.len(),
                i <= start,
                out@ == cs@.subrange(0, i as int),
            decreases start - i,
        {
            push_char(&mut out, cs[i]);
            assert(cs@.subrange(0, i + 1) =~= cs@.subrange(0, i as int).push(cs@[i as int]));
            i = i + 1;
        }
        Some(out)
    } else {
        None
    }
}

} // verus!
