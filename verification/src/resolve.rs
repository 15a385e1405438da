//! The name-conflict resolver: every collected file gets a destination
//! basename, and files that share a basename get distinct ones.
//!
//! Files are grouped by exact basename. A file whose basename is
//! unique keeps it. In a group of two or more, the deterministic
//! tie-break is input order: the first member keeps the unmodified
//! basename, and every later member is renamed to
//! `<stem>_<parent-dir-name>` with the original extension re-appended,
//! falling back to `<stem>_<position>` when the parent directory name
//! is empty. Renamed destinations are not re-checked against other
//! groups, so two groups can still collide after renaming; that
//! limitation is deliberate.

use vstd::prelude::*;
use vstd::string::*;
use crate::decimal::dec_rep;
use crate::decimal::lemma_dec_rep_nonempty;
use crate::decimal::usize_to_decimal;
use crate::names::ext_of;
use crate::names::get_file_extension;
use crate::names::get_file_stem;
use crate::names::last_dot_index;
use crate::names::lemma_last_dot_index_props;
use crate::names::stem_of;

verus! {

/// One regular file found in the source tree, modelled by the plain
/// values the resolver reads: the full source path (carried through as
/// an identifier), the basename, and the name of the immediate parent
/// directory (empty when there is none).
pub struct SourceFile {
    pub path: String,
    pub file_name: String,
    pub parent_name: String,
}

/// A resolved transfer: a source path together with the destination
/// basename chosen for it.
pub struct NameAssignment {
    pub source: String,
    pub dest_name: String,
}

/// How many files in `files` carry the basename `name`.
pub open spec fn count_with_name(files: Seq<SourceFile>, name: Seq<char>) -> nat
    decreases files.len(),
{
    if files.len() == 0 {
        0
    } else {
        count_with_name(files.drop_last(), name) + if files.last().file_name@ == name {
            1nat
        } else {
            0nat
        }
    }
}

/// The suffix appended to a renamed group member: the parent directory
/// name, or the member's position within its group when that name is
/// empty.
pub open spec fn collision_suffix(f: SourceFile, position: nat) -> Seq<char> {
    if f.parent_name@.len() == 0 {
        seq!['_'] + dec_rep(position)
    } else {
        seq!['_'] + f.parent_name@
    }
}

/// The renamed destination for a colliding group member: stem, suffix,
/// and the original extension (left off when the extension is empty).
pub open spec fn renamed_dest(f: SourceFile, position: nat) -> Seq<char> {
    if ext_of(f.file_name@).len() == 0 {
        stem_of(f.file_name@) + collision_suffix(f, position)
    } else {
        stem_of(f.file_name@) + collision_suffix(f, position) + seq!['.'] + ext_of(f.file_name@)
    }
}

/// The destination basename assigned to `files[i]`: the basename
/// itself when it is unique in the list or when `files[i]` is the
/// first of its group in input order, else the renamed form at the
/// position given by the number of earlier group members.
pub open spec fn dest_name_of(files: Seq<SourceFile>, i: int) -> Seq<char> {
    let name = files[i].file_name@;
    let before = count_with_name(files.take(i), name);
    if count_with_name(files, name) <= 1 || before == 0 {
        name
    } else {
        renamed_dest(files[i], before)
    }
}

/// Counting over a prefix one longer splits off the last element.
proof fn lemma_count_unfold(files: Seq<SourceFile>, name: Seq<char>, i: int)
    requires
        0 <= i < files.len(),
    ensures
        count_with_name(files.take(i + 1), name) == count_with_name(files.take(i), name) + if files[i].file_name@ == name {
            1nat
        } else {
            0nat
        },
{
    assert(files.take(i + 1).drop_last() =~= files.take(i));
    assert(files.take(i + 1).last() == files[i]);
}

/// Counts over prefixes grow with the prefix.
proof fn lemma_count_monotonic(files: Seq<SourceFile>, name: Seq<char>, i: int, j: int)
    requires
        0 <= i <= j <= files.len(),
    ensures
        count_with_name(files.take(i), name) <= count_with_name(files.take(j), name),
    decreases j - i,
{
    if i < j {
        lemma_count_monotonic(files, name, i, j - 1);
        lemma_count_unfold(files, name, j - 1);
    }
}

/// The whole list is its own full prefix.
proof fn lemma_count_take_all(files: Seq<SourceFile>, name: Seq<char>)
    ensures
        count_with_name(files.take(files.len() as int), name) == count_with_name(files, name),
{
    assert(files.take(files.len() as int) =~= files);
}

/// A basename that occurs at all occurs at a first position.
proof fn lemma_first_occurrence(files: Seq<SourceFile>, name: Seq<char>)
    requires
        count_with_name(files, name) >= 1,
    ensures
        exists|i: int|
            0 <= i < files.len() && files[i].file_name@ == name && count_with_name(
                files.take(i),
                name,
            ) == 0,
    decreases files.len(),
{
    if count_with_name(files.drop_last(), name) >= 1 {
        lemma_first_occurrence(files.drop_last(), name);
        let i = choose|i: int|
            0 <= i < files.drop_last().len() && files.drop_last()[i].file_name@ == name
                && count_with_name(files.drop_last().take(i), name) == 0;
        assert(files.drop_last().take(i) =~= files.take(i));
        assert(files[i].file_name@ == name && count_with_name(files.take(i), name) == 0);
    } else {
        let i = files.len() - 1;
        assert(files.take(i) =~= files.drop_last());
        assert(files[i].file_name@ == name && count_with_name(files.take(i), name) == 0);
    }
}

/// A renamed destination is strictly longer than the basename it was
/// derived from, so it never equals that basename.
pub proof fn lemma_renamed_differs(f: SourceFile, position: nat)
    requires
        position >= 1,
    ensures
        renamed_dest(f, position).len() > f.file_name@.len(),
        renamed_dest(f, position) != f.file_name@,
{
    let name = f.file_name@;
    lemma_last_dot_index_props(name);
    lemma_dec_rep_nonempty(position);
    assert(collision_suffix(f, position).len() >= 2);
}

/// A file whose basename is unique in the input keeps that basename
/// as its destination name.
pub proof fn lemma_unique_basename_kept(files: Seq<SourceFile>, i: int)
    requires
        0 <= i < files.len(),
        count_with_name(files, files[i].file_name@) == 1,
    ensures
        dest_name_of(files, i) == files[i].file_name@,
{
}

/// In a group of two or more files sharing a basename, exactly one
/// member — the first in input order, the one with no earlier group
/// member — keeps the unmodified basename; every other member is
/// assigned the renamed form for its position, which differs from the
/// basename.
pub proof fn lemma_collision_group_naming(files: Seq<SourceFile>, name: Seq<char>)
    requires
        count_with_name(files, name) > 1,
    ensures
        exists|i: int|
            0 <= i < files.len() && files[i].file_name@ == name && count_with_name(
                #[trigger] files.take(i),
                name,
            ) == 0,
        forall|i: int|
            0 <= i < files.len() && files[i].file_name@ == name ==> (#[trigger] dest_name_of(
                files,
                i,
            ) == name <==> count_with_name(files.take(i), name) == 0),
        forall|i: int|
            0 <= i < files.len() && files[i].file_name@ == name && count_with_name(
                files.take(i),
                name,
            ) >= 1 ==> #[trigger] dest_name_of(files, i) == renamed_dest(
                files[i],
                count_with_name(files.take(i), name),
            ),
        forall|i: int, j: int|
            0 <= i < j < files.len() && (#[trigger] files[i]).file_name@ == name && (
            #[trigger] files[j]).file_name@ == name ==> count_with_name(files.take(j), name) >= 1,
{
    lemma_first_occurrence(files, name);
    assert forall|i: int|
        0 <= i < files.len() && files[i].file_name@ == name && count_with_name(
            files.take(i),
            name,
        ) >= 1 implies #[trigger] dest_name_of(files, i) == renamed_dest(
        files[i],
        count_with_name(files.take(i), name),
    ) && dest_name_of(files, i) != name by {
        lemma_renamed_differs(files[i], count_with_name(files.take(i), name));
    }
    assert forall|i: int, j: int|
        0 <= i < j < files.len() && (#[trigger] files[i]).file_name@ == name && (
    #[trigger] files[j]).file_name@ == name implies count_with_name(files.take(j), name) >= 1 by {
        lemma_count_unfold(files, name, i);
        lemma_count_monotonic(files, name, i + 1, j);
    }
}

/// Exact count of `name` among the first `end` entries of `files`.
fn count_name_in_prefix(files: &Vec<SourceFile>, name: &String, end: usize) -> (c: usize)
    requires
        end <= files@.len(),
    ensures
        c == count_with_name(files@.take(end as int), name@),
{
    let mut c: usize = 0;
    let mut j: usize = 0;
    while j < end
        invariant
            end <= files@.len(),
            j <= end,
            c <= j,
            c == count_with_name(files@.take(j as int), name@),
        decreases end - j,
    {
        proof {
            lemma_count_unfold(files@, name@, j as int);
        }
        if files[j].file_name == *name {
            c = c + 1;
        }
        j = j + 1;
    }
    c
}

/// Build the renamed destination `<stem>_<suffix>` with the original
/// extension re-appended.
pub fn render_renamed(f: &SourceFile, position: usize) -> (r: String)
    ensures
        r@ == renamed_dest(*f, position as nat),
{
    let name = f.file_name.as_str();
    let stem = get_file_stem(name);
    let ext = get_file_extension(name);
    let mut out = String::from_str(stem);
    out.append("_");
    if f.parent_name.as_str().unicode_len() == 0 {
        let num = usize_to_decimal(position);
        out.append(num.as_str());
    } else {
        out.append(f.parent_name.as_str());
    }
    if ext.as_str().unicode_len() > 0 {
        out.append(".");
        out.append(ext.as_str());
    }
    proof {
        reveal_strlit("_");
        reveal_strlit(".");
        assert(out@ =~= renamed_dest(*f, position as nat));
    }
    out
}

/// Resolve destination basenames for every collected file, one
/// `NameAssignment` per input entry, in input order.
///
/// A basename unique in the input is kept; in a group sharing a
/// basename the first member in input order keeps it and every later
/// member gets the renamed form for its position in the group.
pub fn resolve_name_conflicts(files: &Vec<SourceFile>) -> (result: Vec<NameAssignment>)
    ensures
        result@.len() == files@.len(),
        forall|i: int|
            0 <= i < files@.len() ==> (#[trigger] result@[i]).source@ == files@[i].path@,
        forall|i: int|
            0 <= i < files@.len() ==> (#[trigger] result@[i]).dest_name@ == dest_name_of(
                files@,
                i,
            ),
{
    let mut result: Vec<NameAssignment> = Vec::new();
    let n = files.len();
    let mut i: usize = 0;
    while i < n
        invariant
            n == files@.len(),
            i <= n,
            result@.len() == i,
            forall|k: int| 0 <= k < i ==> (#[trigger] result@[k]).source@ == files@[k].path@,
            forall|k: int|
                0 <= k < i ==> (#[trigger] result@[k]).dest_name@ == dest_name_of(files@, k),
        decreases n - i,
    {
        let name = &files[i].file_name;
        let total = count_name_in_prefix(files, name, n);
        let before = count_name_in_prefix(files, name, i);
        proof {
            lemma_count_take_all(files@, name@);
        }
        let dest: String = if total <= 1 || before == 0 {
            name.clone()
        } else {
            render_renamed(&files[i], before)
        };
        let assignment = NameAssignment { source: files[i].path.clone(), dest_name: dest };
        result.push(assignment);
        i = i + 1;
    }
    result
}

} // verus!
