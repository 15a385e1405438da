//! Splitting a basename into stem and extension at its last dot.

use vstd::prelude::*;
use vstd::string::*;

verus! {

/// Index of the last '.' in `s`, or -1 when `s` holds none.
pub open spec fn last_dot_index(s: Seq<char>) -> int
    decreases s.len(),
{
    if s.len() == 0 {
        -1
    } else if s[s.len() - 1] == '.' {
        s.len() - 1
    } else {
        last_dot_index(s.drop_last())
    }
}

/// The stem of a basename: everything before the last '.', or the
/// whole name when it holds no '.'.
pub open spec fn stem_of(s: Seq<char>) -> Seq<char> {
    if last_dot_index(s) < 0 {
        s
    } else {
        s.subrange(0, last_dot_index(s))
    }
}

/// The extension of a basename: everything after the last '.', or
/// empty when it holds no '.'.
pub open spec fn ext_of(s: Seq<char>) -> Seq<char> {
    if last_dot_index(s) < 0 {
        Seq::empty()
    } else {
        s.subrange(last_dot_index(s) + 1, s.len() as int)
    }
}

pub proof fn lemma_last_dot_index_props(s: Seq<char>)
    ensures
        -1 <= last_dot_index(s) < s.len(),
        last_dot_index(s) >= 0 ==> s[last_dot_index(s)] == '.',
        forall|j: int| last_dot_index(s) < j < s.len() ==> s[j] != '.',
    decreases s.len(),
{
    if s.len() == 0 {
    } else if s[s.len() - 1] == '.' {
    } else {
        lemma_last_dot_index_props(s.drop_last());
        assert forall|j: int| last_dot_index(s) < j < s.len() implies s[j] != '.' by {
            if j < s.len() - 1 {
                assert(s.drop_last()[j] == s[j]);
            }
        }
    }
}

/// A '.' with no later '.' after it is the last dot.
pub proof fn lemma_last_dot_index_at(s: Seq<char>, d: int)
    requires
        0 <= d < s.len(),
        s[d] == '.',
        forall|j: int| d < j < s.len() ==> s[j] != '.',
    ensures
        last_dot_index(s) == d,
    decreases s.len(),
{
    if d == s.len() - 1 {
    } else {
        assert(s.drop_last()[d] == s[d]);
        assert forall|j: int| d < j < s.drop_last().len() implies s.drop_last()[j] != '.' by {
            assert(s.drop_last()[j] == s[j]);
        }
        lemma_last_dot_index_at(s.drop_last(), d);
    }
}

/// A name without any '.' has no last dot.
pub proof fn lemma_last_dot_index_none(s: Seq<char>)
    requires
        forall|j: int| 0 <= j < s.len() ==> s[j] != '.',
    ensures
        last_dot_index(s) == -1,
    decreases s.len(),
{
    if s.len() > 0 {
        assert forall|j: int| 0 <= j < s.drop_last().len() implies s.drop_last()[j] != '.' by {
            assert(s.drop_last()[j] == s[j]);
        }
        lemma_last_dot_index_none(s.drop_last());
    }
}

/// A name that holds a dot is its stem, the dot, and its extension.
pub proof fn lemma_stem_ext_decompose(s: Seq<char>)
    ensures
        last_dot_index(s) >= 0 ==> s =~= stem_of(s) + seq!['.'] + ext_of(s),
        last_dot_index(s) < 0 ==> stem_of(s) == s && ext_of(s) == Seq::<char>::empty(),
{
    lemma_last_dot_index_props(s);
}

/// Position of the last '.' of `s`, scanning characters from the end.
fn rfind_dot(s: &str) -> (r: Option<usize>)
    ensures
        match r {
            Some(i) => i as int == last_dot_index(s@),
            None => last_dot_index(s@) == -1,
        },
{
    let len = s.unicode_len();
    let mut j = len;
    while j > 0
        invariant
            j <= len,
            len == s@.len(),
            forall|k: int| j <= k < len ==> s@[k] != '.',
        decreases j,
    {
        j = j - 1;
        let c = s.get_char(j);
        if c == '.' {
            proof {
                lemma_last_dot_index_at(s@, j as int);
            }
            return Some(j);
        }
    }
    proof {
        lemma_last_dot_index_none(s@);
    }
    None
}

/// The basename with its final `.extension` suffix removed; unchanged
/// when it holds no '.'.
pub fn get_file_stem(filename: &str) -> (r: &str)
    ensures
        r@ == stem_of(filename@),
{
    proof {
        lemma_last_dot_index_props(filename@);
    }
    match rfind_dot(filename) {
        Some(pos) => filename.substring_char(0, pos),
        None => filename,
    }
}

/// The extension after the basename's last '.', without the dot;
/// empty when the basename holds no '.'.
pub fn get_file_extension(filename: &str) -> (r: String)
    ensures
        r@ == ext_of(filename@),
{
    proof {
        lemma_last_dot_index_props(filename@);
    }
    let len = filename.unicode_len();
    match rfind_dot(filename) {
        Some(pos) => String::from_str(filename.substring_char(pos + 1, len)),
        None => String::new(),
    }
}

} // verus!
