//! Where a file goes under the target root: a `year/month/day` directory
//! when its capture time is known, else its source directory mirrored under
//! the catch-all `other` bucket.

use vstd::prelude::*;
use crate::collision::is_resolution;
use crate::naming::{
    candidate_of, decimal, extension_suffix, extension_suffix_of, lemma_decimal_digits, push_decimal,
};
use crate::timestamp::{CaptureTime, stem_of};

verus! {

/// `s` without the leading `p`, or `s` itself when it does not start with `p`.
pub open spec fn without_prefix(s: Seq<char>, p: Seq<char>) -> Seq<char> {
    if p.len() <= s.len() && s.subrange(0, p.len() as int) == p {
        s.subrange(p.len() as int, s.len() as int)
    } else {
        s
    }
}

/// `s` without one leading `sep`, if it has one.
pub open spec fn without_leading(s: Seq<char>, sep: char) -> Seq<char> {
    if s.len() > 0 && s[0] == sep {
        s.subrange(1, s.len() as int)
    } else {
        s
    }
}

/// `s` without one trailing `sep`, if it has one.
pub open spec fn without_trailing(s: Seq<char>, sep: char) -> Seq<char> {
    if s.len() > 0 && s.last() == sep {
        s.drop_last()
    } else {
        s
    }
}

/// The directory `parent` relative to the source root `source`.
pub open spec fn relative_dir_of(source: Seq<char>, parent: Seq<char>, sep: char) -> Seq<char> {
    without_trailing(without_leading(without_prefix(parent, source), sep), sep)
}

/// The name of the bucket that receives files without a capture time.
pub open spec fn other_bucket() -> Seq<char> {
    seq!['o', 't', 'h', 'e', 'r']
}

/// The directory, relative to the target root, that mirrors `rel` under the
/// bucket; the bucket itself when `rel` is empty.
pub open spec fn mirrored_dir_of(rel: Seq<char>, sep: char) -> Seq<char> {
    if rel.len() == 0 {
        other_bucket()
    } else {
        other_bucket() + seq![sep] + rel
    }
}

/// The directory, relative to the target root, of a file taken at `t`.
pub open spec fn dated_dir_of(t: CaptureTime, sep: char) -> Seq<char> {
    decimal(t.year as nat) + seq![sep] + decimal(t.month as nat) + seq![sep] + decimal(
        t.day as nat,
    )
}

/// Strips the source root from a file's parent directory, then one leading
/// and one trailing separator.
pub fn relative_dir(source: &str, parent: &str, sep: char) -> (r: String)
    ensures
        r@ == relative_dir_of(source@, parent@, sep),
{
    let n = source.unicode_len();
    let m = parent.unicode_len();
    let mut start: usize = 0;
    if n <= m {
        let mut i: usize = 0;
        let mut same = true;
        assert(parent@.subrange(0, 0) =~= source@.subrange(0, 0));
        while i < n
            invariant
                n == source@.len(),
                m == parent@.len(),
                n <= m,
                i <= n,
                same == (parent@.subrange(0, i as int) == source@.subrange(0, i as int)),
            decreases n - i,
        {
            if same && parent.get_char(i) != source.get_char(i) {
                same = false;
            }
            proof {
                if same {
                    assert(parent@.subrange(0, i + 1) =~= source@.subrange(0, i + 1));
                } else {
                    assert(parent@.subrange(0, i + 1)[i as int] == parent@[i as int]);
                    if parent@.subrange(0, i as int) != source@.subrange(0, i as int) {
                        assert(parent@.subrange(0, i + 1).subrange(0, i as int) =~= parent@.subrange(0, i as int));
                        assert(source@.subrange(0, i + 1).subrange(0, i as int) =~= source@.subrange(0, i as int));
                    }
                }
            }
            i = i + 1;
        }
        assert(source@.subrange(0, n as int) =~= source@);
        if same {
            start = n;
        }
    }
    let rest = parent.substring_char(start, m);
    assert(rest@ == without_prefix(parent@, source@));
    let k = rest.unicode_len();
    let mut lo: usize = 0;
    if k > 0 && rest.get_char(0) == sep {
        lo = 1;
    }
    let mid = rest.substring_char(lo, k);
    assert(mid@ == without_leading(rest@, sep));
    let j = mid.unicode_len();
    let mut hi: usize = j;
    if j > 0 && mid.get_char(j - 1) == sep {
        hi = j - 1;
    }
    let out = mid.substring_char(0, hi);
    assert(out@ =~= without_trailing(mid@, sep));
    String::from_str(out)
}

/// Builds the `year/month/day` directory of a file taken at `t`.
pub fn dated_dir(t: &CaptureTime, sep: char) -> (r: String)
    ensures
        r@ == dated_dir_of(*t, sep),
{
    let mut r = String::new();
    push_decimal(&mut r, t.year as u64);
    r.push(sep);
    push_decimal(&mut r, t.month as u64);
    r.push(sep);
    push_decimal(&mut r, t.day as u64);
    assert(r@ =~= dated_dir_of(*t, sep));
    r
}

/// Builds the directory, relative to the target root, that mirrors a file's
/// source directory under the `other` bucket.
pub fn mirrored_dir(source: &str, parent: &str, sep: char) -> (r: String)
    ensures
        r@ == mirrored_dir_of(relative_dir_of(source@, parent@, sep), sep),
{
    let rel = relative_dir(source, parent, sep);
    proof {
        reveal_strlit("other");
    }
    let mut r = String::from_str("other");
    if rel.as_str().unicode_len() > 0 {
        r.push(sep);
        r.append(rel.as_str());
    }
    assert(r@ =~= mirrored_dir_of(rel@, sep));
    r
}

/// The view of an optional string.
pub open spec fn opt_view(o: Option<&str>) -> Option<Seq<char>> {
    match o {
        Some(s) => Some(s@),
        None => None,
    }
}

/// Where one file is to be copied, relative to the target root.
pub enum Placement {
    /// Into the directory of its capture date, under the first free name
    /// built from `stem` and `suffix`.
    Dated { dir: String, stem: String, suffix: String },
    /// Into its mirrored directory, under its own name.
    Mirrored { dir: String, name: String },
}

/// What `Placement` a file gets: dated when its capture time `time` is known,
/// mirrored otherwise.
pub open spec fn placement_is(
    r: Placement,
    source: Seq<char>,
    parent: Seq<char>,
    file_name: Seq<char>,
    extension: Option<Seq<char>>,
    time: Option<CaptureTime>,
    sep: char,
) -> bool {
    match time {
        Some(t) => match r {
            Placement::Dated { dir, stem, suffix } => dir@ == dated_dir_of(t, sep) && stem@ == stem_of(
                t,
            ) && suffix@ == extension_suffix_of(extension),
            Placement::Mirrored { .. } => false,
        },
        None => match r {
            Placement::Mirrored { dir, name } => dir@ == mirrored_dir_of(
                relative_dir_of(source, parent, sep),
                sep,
            ) && name@ == file_name,
            Placement::Dated { .. } => false,
        },
    }
}

/// Decides where a file goes, given the source root, the file's parent
/// directory, its name and extension, and its capture time if any.
pub fn plan_placement(
    source: &str,
    parent: &str,
    file_name: &str,
    extension: Option<&str>,
    time: Option<CaptureTime>,
    sep: char,
) -> (r: Placement)
    ensures
        placement_is(r, source@, parent@, file_name@, opt_view(extension), time, sep),
{
    match time {
        Some(t) => Placement::Dated {
            dir: dated_dir(&t, sep),
            stem: t.stem(),
            suffix: extension_suffix(extension),
        },
        None => Placement::Mirrored {
            dir: mirrored_dir(source, parent, sep),
            name: String::from_str(file_name),
        },
    }
}

/// A file without a capture time lands in the copy of its own source
/// directory: when `parent` is the source root followed by a separator and a
/// path `rel` that does not end in one, the mirrored directory is `rel`
/// under the bucket; when `parent` is the root itself, the bucket.
pub proof fn lemma_mirror_keeps_structure(source: Seq<char>, rel: Seq<char>, sep: char)
    requires
        rel.len() == 0 || rel.last() != sep,
    ensures
        mirrored_dir_of(relative_dir_of(source, source + seq![sep] + rel, sep), sep)
            == mirrored_dir_of(rel, sep),
        mirrored_dir_of(relative_dir_of(source, source, sep), sep) == other_bucket(),
{
    let parent = source + seq![sep] + rel;
    assert(parent.subrange(0, source.len() as int) =~= source);
    let rest = without_prefix(parent, source);
    assert(rest =~= seq![sep] + rel);
    assert(without_leading(rest, sep) =~= rel);
    if rel.len() > 0 {
        assert(without_trailing(rel, sep) == rel);
    }
    assert(source.subrange(0, source.len() as int) =~= source);
    assert(without_prefix(source, source) =~= Seq::<char>::empty());
}

/// A sequence made of two that both lack `c` lacks it too.
proof fn lemma_concat_lacks(a: Seq<char>, b: Seq<char>, c: char)
    requires
        !a.contains(c),
        !b.contains(c),
    ensures
        !(a + b).contains(c),
{
    if (a + b).contains(c) {
        let k = choose|k: int| 0 <= k < (a + b).len() && (a + b)[k] == c;
        if k < a.len() {
            assert(a[k] == c);
        } else {
            assert(b[k - a.len()] == c);
        }
    }
}

/// A rendering holds no character but digits.
proof fn lemma_decimal_lacks(n: nat, c: char)
    requires
        !(48 <= c as u32 <= 57),
    ensures
        !decimal(n).contains(c),
{
    lemma_decimal_digits(n);
}

/// The stem of a capture time holds only digits and `_`.
proof fn lemma_stem_lacks(t: CaptureTime, c: char)
    requires
        !(48 <= c as u32 <= 57),
        c != '_',
    ensures
        !stem_of(t).contains(c),
{
    let u = seq!['_'];
    assert(!u.contains(c)) by {
        if u.contains(c) {
            assert(u[0] == '_');
        }
    }
    lemma_decimal_lacks(t.year as nat, c);
    lemma_decimal_lacks(t.month as nat, c);
    lemma_decimal_lacks(t.day as nat, c);
    lemma_decimal_lacks(t.hour as nat, c);
    lemma_decimal_lacks(t.minute as nat, c);
    lemma_decimal_lacks(t.second as nat, c);
    let s1 = decimal(t.year as nat) + u;
    lemma_concat_lacks(decimal(t.year as nat), u, c);
    let s2 = s1 + decimal(t.month as nat);
    lemma_concat_lacks(s1, decimal(t.month as nat), c);
    let s3 = s2 + u;
    lemma_concat_lacks(s2, u, c);
    let s4 = s3 + decimal(t.day as nat);
    lemma_concat_lacks(s3, decimal(t.day as nat), c);
    let s5 = s4 + u;
    lemma_concat_lacks(s4, u, c);
    let s6 = s5 + decimal(t.hour as nat);
    lemma_concat_lacks(s5, decimal(t.hour as nat), c);
    let s7 = s6 + u;
    lemma_concat_lacks(s6, u, c);
    let s8 = s7 + decimal(t.minute as nat);
    lemma_concat_lacks(s7, decimal(t.minute as nat), c);
    let s9 = s8 + u;
    lemma_concat_lacks(s8, u, c);
    lemma_concat_lacks(s9, decimal(t.second as nat), c);
}

/// A file with a capture time `t` is copied directly into its date
/// directory, under a name that nothing there holds yet: when the separator
/// is neither a digit nor `_` nor `.`, and the extension holds no separator,
/// the name that probing gives holds no separator and is not taken.
pub proof fn lemma_dated_name_in_place(
    t: CaptureTime,
    extension: Option<Seq<char>>,
    sep: char,
    taken: Set<Seq<char>>,
    limit: nat,
    name: Seq<char>,
)
    requires
        !(48 <= sep as u32 <= 57),
        sep != '_',
        sep != '.',
        extension matches Some(e) ==> !e.contains(sep),
        is_resolution(stem_of(t), extension_suffix_of(extension), taken, limit, Some(name)),
    ensures
        !name.contains(sep),
        !taken.contains(name),
{
    let stem = stem_of(t);
    let suffix = extension_suffix_of(extension);
    let k = choose|k: nat|
        k < limit && name == #[trigger] candidate_of(stem, suffix, k) && !taken.contains(name)
            && forall|j: nat| j < k ==> taken.contains(#[trigger] candidate_of(stem, suffix, j));
    lemma_stem_lacks(t, sep);
    match extension {
        Some(e) => {
            let d = seq!['.'];
            assert(!d.contains(sep)) by {
                if d.contains(sep) {
                    assert(d[0] == '.');
                }
            }
            lemma_concat_lacks(d, e, sep);
        },
        None => {
            assert(suffix =~= Seq::<char>::empty());
        },
    }
    if k == 0 {
        lemma_concat_lacks(stem, suffix, sep);
    } else {
        lemma_decimal_lacks(k, sep);
        lemma_concat_lacks(stem, decimal(k), sep);
        lemma_concat_lacks(stem + decimal(k), suffix, sep);
    }
}

} // verus!
