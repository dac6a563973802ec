//! Path strings: joining under a base directory, and swapping the
//! extension of the file name.
//!
//! Paths are plain strings with `/` as the separator.  The two operations
//! here mirror what the project loader needs: prefixing every configured
//! path with the directory the configuration file sits in, and deriving
//! the artifact and side-output names from the entry file's stem.

use vstd::prelude::*;
use vstd::string::StrSliceExecFns;
use vstd::string::StringExecFns;

verus! {

/// A path that must not be re-anchored under a base directory.
pub open spec fn is_absolute(p: Seq<char>) -> bool {
    p.len() > 0 && p[0] == '/'
}

/// What joining `p` under `base` yields: an absolute `p` is kept as it is,
/// an empty base adds nothing, and otherwise the two are glued with
/// exactly one separator.
pub open spec fn join_spec(base: Seq<char>, p: Seq<char>) -> Seq<char> {
    if is_absolute(p) {
        p
    } else if base.len() == 0 {
        p
    } else if base[base.len() - 1] == '/' {
        base + p
    } else {
        base + seq!['/'] + p
    }
}

/// The position of the last occurrence of `ch` in `s`, or -1.
pub open spec fn last_index(s: Seq<char>, ch: char) -> int
    decreases s.len(),
{
    if s.len() == 0 {
        -1
    } else if s[s.len() - 1] == ch {
        s.len() - 1
    } else {
        last_index(s.drop_last(), ch)
    }
}

/// The position of the dot that an extension swap replaces from: the last
/// dot of the file name, unless it is the name's first character (a name
/// such as `.profile` has no extension).  -1 when there is none.
pub open spec fn replaceable_dot(s: Seq<char>) -> int {
    let dot = last_index(s, '.');
    if dot > last_index(s, '/') + 1 {
        dot
    } else {
        -1
    }
}

/// What swapping the extension yields: everything up to the replaceable
/// dot — or the whole path when there is none — then a dot and `ext`.
pub open spec fn with_ext_spec(s: Seq<char>, ext: Seq<char>) -> Seq<char> {
    let dot = replaceable_dot(s);
    let cut = if dot >= 0 {
        dot
    } else {
        s.len() as int
    };
    s.take(cut) + seq!['.'] + ext
}

/// The last occurrence seen by a left-to-right scan is the last occurrence.
proof fn lemma_last_index_step(s: Seq<char>, i: int, ch: char)
    requires
        0 <= i < s.len(),
    ensures
        last_index(s.take(i + 1), ch) == if s[i] == ch {
            i
        } else {
            last_index(s.take(i), ch)
        },
{
    assert(s.take(i + 1).drop_last() =~= s.take(i));
    assert(s.take(i + 1)[i] == s[i]);
}

/// Where the last occurrence of `ch` in `p` stands, if anywhere.
///
/// The answer is `None` exactly when `ch` does not occur; otherwise the
/// returned position holds `ch` and matches [`last_index`].
pub fn find_last(p: &str, ch: char) -> (r: Option<usize>)
    ensures
        match r {
            Some(i) => last_index(p@, ch) == i as int && (i as int) < p@.len(),
            None => last_index(p@, ch) == -1,
        },
{
    let n = p.unicode_len();
    let mut found: Option<usize> = None;
    let mut i: usize = 0;
    proof {
        assert(p@.take(0) =~= Seq::<char>::empty());
    }
    while i < n
        invariant
            n == p@.len(),
            i <= n,
            match found {
                Some(q) => last_index(p@.take(i as int), ch) == q as int && q < i,
                None => last_index(p@.take(i as int), ch) == -1,
            },
        decreases n - i,
    {
        let c = p.get_char(i);
        proof {
            lemma_last_index_step(p@, i as int, ch);
        }
        if c == ch {
            found = Some(i);
        }
        i += 1;
    }
    proof {
        assert(p@.take(n as int) =~= p@);
    }
    found
}

/// Join `path` under `prepend`: the engine's picture of pushing a path
/// onto a base directory.
pub fn with_prepend(path: &String, prepend: &String) -> (r: String)
    ensures
        r@ == join_spec(prepend@, path@),
{
    let p = path.as_str();
    let b = prepend.as_str();
    if !p.is_empty() && p.get_char(0) == '/' {
        path.clone()
    } else if b.is_empty() {
        path.clone()
    } else {
        let mut out = prepend.clone();
        if b.get_char(b.unicode_len() - 1) != '/' {
            out.append("/");
            proof {
                reveal_strlit("/");
                assert(out@ =~= prepend@ + seq!['/']);
            }
        }
        out.append(p);
        proof {
            if prepend@[prepend@.len() - 1] != '/' {
                assert(out@ =~= prepend@ + seq!['/'] + path@);
            }
        }
        out
    }
}

/// Swap (or add) the extension of `path`'s file name for `ext`.
pub fn with_extension(path: &String, ext: &str) -> (r: String)
    ensures
        r@ == with_ext_spec(path@, ext@),
{
    let p = path.as_str();
    let dot = find_last(p, '.');
    let slash = find_last(p, '/');
    let cut = match dot {
        Some(d) => {
            let name_ok = match slash {
                Some(s) => s < d && d - s > 1,
                None => d > 0,
            };
            if name_ok {
                d
            } else {
                p.unicode_len()
            }
        },
        None => p.unicode_len(),
    };
    let stem = p.substring_char(0, cut);
    let mut out = stem.to_owned();
    out.append(".");
    out.append(ext);
    proof {
        reveal_strlit(".");
        assert(p@.take(p@.len() as int) =~= p@);
        assert(out@ =~= p@.take(cut as int) + seq!['.'] + ext@);
    }
    out
}

} // verus!
