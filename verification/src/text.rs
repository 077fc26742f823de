//! Names: the reserved separator, decimal rendering of collision suffixes,
//! and joining a path's segments into a fully-qualified variable name.

use vstd::prelude::*;
use vstd::string::StrSliceExecFns;
use vstd::string::StringExecFns;

verus! {

/// No character of `s` is the reserved separator `'.'`.
pub open spec fn no_sep(s: Seq<char>) -> bool {
    forall|i: int| 0 <= i < s.len() ==> s[i] != '.'
}

/// Whether `s` contains the reserved separator.
pub fn contains_sep(s: &str) -> (r: bool)
    ensures
        r == !no_sep(s@),
{
    let n = s.unicode_len();
    let mut j: usize = 0;
    while j < n
        invariant
            n == s@.len(),
            0 <= j <= n,
            forall|i: int| 0 <= i < j ==> s@[i] != '.',
        decreases n - j,
    {
        if s.get_char(j) == '.' {
            return true;
        }
        j += 1;
    }
    false
}

/// The decimal digit character for `0 <= d <= 9`.
pub open spec fn digit_char(d: int) -> char {
    if d == 0 {
        '0'
    } else if d == 1 {
        '1'
    } else if d == 2 {
        '2'
    } else if d == 3 {
        '3'
    } else if d == 4 {
        '4'
    } else if d == 5 {
        '5'
    } else if d == 6 {
        '6'
    } else if d == 7 {
        '7'
    } else if d == 8 {
        '8'
    } else {
        '9'
    }
}

/// The decimal rendering of `n`, most significant digit first.
pub open spec fn dec_digits(n: nat) -> Seq<char>
    decreases n,
{
    if n < 10 {
        seq![digit_char(n as int)]
    } else {
        dec_digits(n / 10).push(digit_char((n % 10) as int))
    }
}

pub proof fn lemma_dec_digits_len(n: nat)
    ensures
        dec_digits(n).len() >= 1,
    decreases n,
{
    if n >= 10 {
        lemma_dec_digits_len(n / 10);
    }
}

fn digit_str(d: u64) -> (s: &'static str)
    requires
        d < 10,
    ensures
        s@ == seq![digit_char(d as int)],
{
    proof {
        reveal_strlit("0");
        reveal_strlit("1");
        reveal_strlit("2");
        reveal_strlit("3");
        reveal_strlit("4");
        reveal_strlit("5");
        reveal_strlit("6");
        reveal_strlit("7");
        reveal_strlit("8");
        reveal_strlit("9");
    }
    let s = if d == 0 {
        "0"
    } else if d == 1 {
        "1"
    } else if d == 2 {
        "2"
    } else if d == 3 {
        "3"
    } else if d == 4 {
        "4"
    } else if d == 5 {
        "5"
    } else if d == 6 {
        "6"
    } else if d == 7 {
        "7"
    } else if d == 8 {
        "8"
    } else {
        "9"
    };
    proof {
        assert(s@ =~= seq![digit_char(d as int)]);
    }
    s
}

/// Renders `n` in decimal.
pub fn u64_to_string(n: u64) -> (s: String)
    ensures
        s@ == dec_digits(n as nat),
    decreases n,
{
    if n < 10 {
        String::from_str(digit_str(n))
    } else {
        let rest = u64_to_string(n / 10);
        let s = rest.concat(digit_str(n % 10));
        proof {
            assert(s@ =~= dec_digits(n as nat));
        }
        s
    }
}

/// The fully-qualified name of leaf `leaf` under the path segments
/// `segments`: the segments and the leaf joined with the reserved separator;
/// a root path contributes nothing.
pub open spec fn joined(segments: Seq<Seq<char>>, leaf: Seq<char>) -> Seq<char>
    decreases segments.len(),
{
    if segments.len() == 0 {
        leaf
    } else {
        segments[0] + seq!['.'] + joined(segments.skip(1), leaf)
    }
}

/// The views of a list of segment strings.
pub open spec fn seg_views(segments: Seq<String>) -> Seq<Seq<char>> {
    segments.map_values(|s: String| s@)
}

/// Joins path segments and a leaf name with the reserved separator.
pub fn join_name(segments: &Vec<String>, leaf: &str) -> (r: String)
    ensures
        r@ == joined(seg_views(segments@), leaf@),
{
    let ghost views = seg_views(segments@);
    let n = segments.len();
    let mut out = String::new();
    proof {
        reveal_strlit(".");
        assert(views.skip(0) =~= views);
        assert(out@ + joined(views, leaf@) =~= joined(views, leaf@));
    }
    let mut j: usize = 0;
    while j < n
        invariant
            n == segments@.len(),
            views == seg_views(segments@),
            0 <= j <= n,
            out@ + joined(views.skip(j as int), leaf@) == joined(views, leaf@),
        decreases n - j,
    {
        proof {
            reveal_strlit(".");
            assert(views.skip(j as int).skip(1) =~= views.skip(j + 1));
            assert(views.skip(j as int)[0] == segments@[j as int]@);
            assert(joined(views.skip(j as int), leaf@) == segments@[j as int]@ + seq!['.']
                + joined(views.skip(j + 1), leaf@));
        }
        out.append(segments[j].as_str());
        out.append(".");
        proof {
            assert("."@ =~= seq!['.']);
            assert(out@ + joined(views.skip(j + 1), leaf@) =~= joined(views, leaf@));
        }
        j += 1;
    }
    proof {
        assert(views.skip(n as int) =~= Seq::<Seq<char>>::empty());
        assert(joined(views.skip(n as int), leaf@) == leaf@);
    }
    let r = out.concat(leaf);
    proof {
        assert(r@ =~= joined(views, leaf@));
    }
    r
}

/// The candidate name after `tries` rounds of collision disambiguation: each
/// round appends the separator-free suffix `__<count>`.
pub open spec fn rep_suffix(base: Seq<char>, count: nat, tries: nat) -> Seq<char>
    decreases tries,
{
    if tries == 0 {
        base
    } else {
        rep_suffix(base, count, (tries - 1) as nat) + seq!['_', '_'] + dec_digits(count)
    }
}

/// Appends one disambiguation round to `name`.
pub fn push_suffix(name: String, count: u64) -> (r: String)
    ensures
        r@ == name@ + seq!['_', '_'] + dec_digits(count as nat),
{
    proof {
        reveal_strlit("__");
    }
    let mut out = name;
    out.append("__");
    let digits = u64_to_string(count);
    let r = out.concat(digits.as_str());
    proof {
        assert("__"@ =~= seq!['_', '_']);
    }
    r
}

} // verus!
