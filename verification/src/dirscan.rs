use vstd::prelude::*;

use crate::natural::{
    chars_of, lemma_lowercase_keeps_lower, lemma_natural_antisymmetric,
    lemma_natural_transitive, lemma_same_ignoring_case_is_same_lowercase, lowercase,
    natural_compare, natural_compare_chars, same_ignoring_case,
};

verus! {

/// A file name, as characters, beside the position of its entry among the scanned ones.
pub type KeyedName = (Vec<char>, usize);

pub open spec fn names_sorted(keyed: Seq<KeyedName>) -> bool {
    forall|p: int, q: int|
        0 <= p < q < keyed.len() ==> natural_compare(#[trigger] keyed[p].0@, #[trigger] keyed[q].0@)
            <= 0
}

pub open spec fn names_stable(keyed: Seq<KeyedName>) -> bool {
    forall|p: int, q: int|
        0 <= p < q < keyed.len() && natural_compare(#[trigger] keyed[p].0@, #[trigger] keyed[q].0@)
            == 0 ==> keyed[p].1 < keyed[q].1
}

/// Inserts `(name, idx)` after every entry whose name does not come after `name`,
/// keeping the sequence naturally sorted and stable.
fn insert_sorted(keyed: &mut Vec<KeyedName>, name: Vec<char>, idx: usize)
    requires
        names_sorted(old(keyed)@),
        names_stable(old(keyed)@),
        forall|k: int| 0 <= k < old(keyed)@.len() ==> #[trigger] old(keyed)@[k].1 < idx,
    ensures
        names_sorted(final(keyed)@),
        names_stable(final(keyed)@),
        exists|p: int|
            0 <= p <= old(keyed)@.len() && final(keyed)@ == old(keyed)@.insert(p, (name, idx)),
{
    let ghost old_keyed = keyed@;
    let mut p: usize = keyed.len();
    while p > 0 && natural_compare_chars(&keyed[p - 1].0, &name) > 0
        invariant
            keyed@ == old_keyed,
            p <= keyed.len(),
            forall|q: int| p <= q < keyed.len() ==> natural_compare(#[trigger] keyed@[q].0@, name@)
                == 1,
        decreases p,
    {
        proof {
            lemma_natural_antisymmetric(keyed@[p - 1].0@, name@);
        }
        p = p - 1;
    }
    proof {
        assert forall|q: int| 0 <= q < p implies natural_compare(#[trigger] old_keyed[q].0@, name@)
            <= 0 by {
            if q < p - 1 {
                lemma_natural_transitive(old_keyed[q].0@, old_keyed[p - 1].0@, name@);
            }
        }
        assert forall|q: int| p <= q < old_keyed.len() implies natural_compare(
            name@,
            #[trigger] old_keyed[q].0@,
        ) == -1 by {
            lemma_natural_antisymmetric(old_keyed[q].0@, name@);
        }
    }
    keyed.insert(p, (name, idx));
    proof {
        let ins = keyed@;
        old_keyed.insert_ensures(p as int, ins[p as int]);
        assert forall|a: int, b: int| 0 <= a < b < ins.len() implies natural_compare(
            #[trigger] ins[a].0@,
            #[trigger] ins[b].0@,
        ) <= 0 && (natural_compare(ins[a].0@, ins[b].0@) == 0 ==> ins[a].1 < ins[b].1) by {
            if a < p && b < p {
                assert(ins[a] == old_keyed[a] && ins[b] == old_keyed[b]);
            } else if a < p && b == p {
                assert(ins[a] == old_keyed[a]);
            } else if a < p && b > p {
                assert(ins[a] == old_keyed[a] && ins[b] == old_keyed[b - 1]);
            } else if a == p {
                assert(ins[b] == old_keyed[b - 1]);
            } else {
                assert(ins[a] == old_keyed[a - 1] && ins[b] == old_keyed[b - 1]);
            }
        }
    }
}

} // verus!

verus! {

/// What `std::path::Path::file_name` gives for the path spelled `path`: the last
/// component, unless the path ends in `..` or has no component. Path syntax is the
/// target platform's, so the name stands for one platform's rules at a time.
pub uninterp spec fn path_file_name(path: Seq<char>) -> Option<Seq<char>>;

/// What `std::path::Path::extension` gives for the path spelled `path`: the part of
/// the file name after its last `.`, unless the name has none or only a leading one.
pub uninterp spec fn path_extension(path: Seq<char>) -> Option<Seq<char>>;

/// Calls `std::path::Path::file_name` on `path` and turns the result into a `String`.
/// A `&str` is valid UTF-8, so the lossy conversion keeps every character.
/// Trusted: the result is what `path_file_name` names for `path`.
#[verifier::external_body]
pub(crate) fn path_file_name_of(path: &str) -> (r: Option<String>)
    ensures
        match r {
            Some(n) => path_file_name(path@) == Some(n@),
            None => path_file_name(path@) is None,
        },
{
    match std::path::Path::new(path).file_name() {
        Some(n) => Some(n.to_string_lossy().into_owned()),
        None => None,
    }
}

/// Calls `std::path::Path::extension` on `path` and turns the result into a `String`.
/// Trusted: the result is what `path_extension` names for `path`.
#[verifier::external_body]
pub(crate) fn path_extension_of(path: &str) -> (r: Option<String>)
    ensures
        match r {
            Some(e) => path_extension(path@) == Some(e@),
            None => path_extension(path@) is None,
        },
{
    match std::path::Path::new(path).extension() {
        Some(e) => Some(e.to_string_lossy().into_owned()),
        None => None,
    }
}

/// The file name of `path`, or the empty string where it has none.
pub open spec fn file_name_of(path: Seq<char>) -> Seq<char> {
    match path_file_name(path) {
        Some(n) => n,
        None => Seq::empty(),
    }
}

/// The file name of `path`, or an empty string where it has none (such as `/` or `..`).
pub fn file_name(path: &str) -> (r: String)
    ensures
        r@ == file_name_of(path@),
{
    match path_file_name_of(path) {
        Some(n) => n,
        None => String::new(),
    }
}

/// The extensions this viewer opens, in lower case.
pub open spec fn supported_extensions() -> Seq<Seq<char>> {
    seq!["jpg"@, "jpeg"@, "png"@, "apng"@, "webp"@, "gif"@, "heic"@, "heif"@]
}

/// `ext` is one of the supported extensions, ignoring ASCII case.
pub open spec fn is_supported_extension(ext: Seq<char>) -> bool {
    exists|k: int|
        0 <= k < supported_extensions().len() && same_ignoring_case(
            ext,
            #[trigger] supported_extensions()[k],
        )
}

/// The path has an extension, and it is a supported one in any ASCII case.
pub open spec fn supported_path(path: Seq<char>) -> bool {
    match path_extension(path) {
        Some(e) => is_supported_extension(e),
        None => false,
    }
}

/// Whether a path is supported depends on its extension only up to ASCII case.
pub proof fn lemma_supported_ignores_case(e1: Seq<char>, e2: Seq<char>)
    requires
        same_ignoring_case(e1, e2),
    ensures
        is_supported_extension(e1) == is_supported_extension(e2),
{
    if is_supported_extension(e1) {
        let k = choose|k: int|
            0 <= k < supported_extensions().len() && same_ignoring_case(
                e1,
                #[trigger] supported_extensions()[k],
            );
        let w = supported_extensions()[k];
        assert forall|i: int| 0 <= i < e2.len() implies crate::natural::fold(#[trigger] e2[i])
            == crate::natural::fold(w[i]) by {
            assert(crate::natural::fold(e1[i]) == crate::natural::fold(e2[i]));
        }
        assert(same_ignoring_case(e2, w));
    }
    if is_supported_extension(e2) {
        let k = choose|k: int|
            0 <= k < supported_extensions().len() && same_ignoring_case(
                e2,
                #[trigger] supported_extensions()[k],
            );
        let w = supported_extensions()[k];
        assert forall|i: int| 0 <= i < e1.len() implies crate::natural::fold(#[trigger] e1[i])
            == crate::natural::fold(w[i]) by {
            assert(crate::natural::fold(e1[i]) == crate::natural::fold(e2[i]));
        }
        assert(same_ignoring_case(e1, w));
    }
}

fn supported_extension_list() -> (v: Vec<&'static str>)
    ensures
        v@.len() == supported_extensions().len(),
        forall|k: int| 0 <= k < v@.len() ==> #[trigger] v@[k]@ == supported_extensions()[k],
{
    let v = vec!["jpg", "jpeg", "png", "apng", "webp", "gif", "heic", "heif"];
    assert(v@.len() == 8);
    v
}

/// Equality of two character sequences up to ASCII case.
pub fn same_ignoring_case_chars(a: &Vec<char>, b: &Vec<char>) -> (r: bool)
    ensures
        r == same_ignoring_case(a@, b@),
{
    if a.len() != b.len() {
        return false;
    }
    let mut i: usize = 0;
    while i < a.len()
        invariant
            a.len() == b.len(),
            i <= a.len(),
            forall|k: int| 0 <= k < i ==> crate::natural::fold(#[trigger] a@[k]) == crate::natural::fold(b@[k]),
        decreases a.len() - i,
    {
        if crate::natural::fold_char(a[i]) != crate::natural::fold_char(b[i]) {
            return false;
        }
        i = i + 1;
    }
    true
}

/// The images this viewer lists: a path is listed exactly when it has an extension
/// that, taken in lower case, is jpg, jpeg, png, apng, webp, gif, heic or heif.
pub proof fn lemma_supported_extensions_are_listed(path: Seq<char>)
    ensures
        supported_path(path) <==> (path_extension(path) matches Some(e) && {
            let l = lowercase(e);
            ||| l == "jpg"@
            ||| l == "jpeg"@
            ||| l == "png"@
            ||| l == "apng"@
            ||| l == "webp"@
            ||| l == "gif"@
            ||| l == "heic"@
            ||| l == "heif"@
        }),
{
    reveal_strlit("jpg");
    reveal_strlit("jpeg");
    reveal_strlit("png");
    reveal_strlit("apng");
    reveal_strlit("webp");
    reveal_strlit("gif");
    reveal_strlit("heic");
    reveal_strlit("heif");
    let list = supported_extensions();
    assert forall|k: int| 0 <= k < list.len() implies lowercase(#[trigger] list[k]) == list[k] by {
        lemma_lowercase_keeps_lower(list[k]);
    }
    if let Some(e) = path_extension(path) {
        assert forall|k: int| 0 <= k < list.len() implies (same_ignoring_case(e, #[trigger] list[k])
            <==> lowercase(e) == list[k]) by {
            lemma_same_ignoring_case_is_same_lowercase(e, list[k]);
        }
        let l = lowercase(e);
        if l == "jpg"@ {
            assert(same_ignoring_case(e, list[0]));
        } else if l == "jpeg"@ {
            assert(same_ignoring_case(e, list[1]));
        } else if l == "png"@ {
            assert(same_ignoring_case(e, list[2]));
        } else if l == "apng"@ {
            assert(same_ignoring_case(e, list[3]));
        } else if l == "webp"@ {
            assert(same_ignoring_case(e, list[4]));
        } else if l == "gif"@ {
            assert(same_ignoring_case(e, list[5]));
        } else if l == "heic"@ {
            assert(same_ignoring_case(e, list[6]));
        } else if l == "heif"@ {
            assert(same_ignoring_case(e, list[7]));
        }
    }
}

/// Whether the path's extension is one of the supported image formats, in any ASCII case.
pub fn is_supported(path: &str) -> (r: bool)
    ensures
        r == supported_path(path@),
{
    let ext = match path_extension_of(path) {
        Some(e) => e,
        None => return false,
    };
    let ext_chars = chars_of(ext.as_str());
    let list = supported_extension_list();
    let mut k: usize = 0;
    while k < list.len()
        invariant
            ext_chars@ == ext@,
            path_extension(path@) == Some(ext@),
            list@.len() == supported_extensions().len(),
            forall|j: int| 0 <= j < list@.len() ==> #[trigger] list@[j]@ == supported_extensions()[j],
            k <= list.len(),
            forall|j: int| 0 <= j < k ==> !same_ignoring_case(ext@, #[trigger] supported_extensions()[j]),
        decreases list.len() - k,
    {
        let word = chars_of(list[k]);
        if same_ignoring_case_chars(&ext_chars, &word) {
            assert(same_ignoring_case(ext@, supported_extensions()[k as int]));
            return true;
        }
        k = k + 1;
    }
    false
}

} // verus!

verus! {

/// The index after `i` in a ring of `len` entries.
pub open spec fn next_index(i: int, len: int) -> int {
    (i + 1) % len
}

/// The index before `i` in a ring of `len` entries.
pub open spec fn prev_index(i: int, len: int) -> int {
    (i + len - 1) % len
}

/// Sibling images in a directory, naturally sorted by file name, plus the
/// index of the one on display.
pub struct DirListing {
    pub files: Vec<String>,
    pub current_index: usize,
}

impl DirListing {
    /// The index points into the files, or is 0 when there are none.
    pub open spec fn wf(&self) -> bool {
        if self.files.len() == 0 {
            self.current_index == 0
        } else {
            self.current_index < self.files.len()
        }
    }

    /// Steps to the next file, wrapping from the last to the first, and returns it;
    /// `None`, with nothing changed, when the listing is empty.
    pub fn next(&mut self) -> (r: Option<&str>)
        ensures
            final(self).files@ == old(self).files@,
            old(self).files.len() == 0 ==> r is None && final(self).current_index == old(self).current_index,
            old(self).files.len() > 0 ==> {
                &&& final(self).current_index == next_index(
                    old(self).current_index as int,
                    old(self).files.len() as int,
                )
                &&& r matches Some(p) && p@ == final(self).files@[final(self).current_index as int]@
            },
    {
        let len = self.files.len();
        if len == 0 {
            return None;
        }
        let at = self.current_index % len;
        proof {
            lemma_ring_steps(self.current_index as int, len as int);
        }
        self.current_index = if at + 1 == len {
            0
        } else {
            at + 1
        };
        Some(self.files[self.current_index].as_str())
    }

    /// Steps to the previous file, wrapping from the first to the last, and returns it;
    /// `None`, with nothing changed, when the listing is empty.
    pub fn prev(&mut self) -> (r: Option<&str>)
        ensures
            final(self).files@ == old(self).files@,
            old(self).files.len() == 0 ==> r is None && final(self).current_index == old(self).current_index,
            old(self).files.len() > 0 ==> {
                &&& final(self).current_index == prev_index(
                    old(self).current_index as int,
                    old(self).files.len() as int,
                )
                &&& r matches Some(p) && p@ == final(self).files@[final(self).current_index as int]@
            },
    {
        let len = self.files.len();
        if len == 0 {
            return None;
        }
        let at = self.current_index % len;
        proof {
            lemma_ring_steps(self.current_index as int, len as int);
        }
        self.current_index = if at == 0 {
            len - 1
        } else {
            at - 1
        };
        Some(self.files[self.current_index].as_str())
    }
}

/// A step around the ring from any index `i` depends only on where `i` falls in it:
/// forward from the last place is the first, back from the first is the last.
pub(crate) proof fn lemma_ring_steps(i: int, len: int)
    requires
        len > 0,
    ensures
        next_index(i, len) == (if i % len + 1 == len {
            0
        } else {
            i % len + 1
        }),
        prev_index(i, len) == (if i % len == 0 {
            len - 1
        } else {
            i % len - 1
        }),
{
    vstd::arithmetic::div_mod::lemma_add_mod_noop_right(1, i, len);
    vstd::arithmetic::div_mod::lemma_add_mod_noop_right(len - 1, i, len);
    vstd::arithmetic::div_mod::lemma_mod_bound(i, len);
    assert(1 + i == i + 1);
    assert(len - 1 + i == i + len - 1);
    lemma_mod_shift(i % len + 1, len);
    lemma_mod_shift(len - 1 + i % len, len);
}

/// Stepping forward and then back returns to the same file, and so does
/// stepping back and then forward; both steps keep a valid index valid.
pub proof fn lemma_next_prev_inverse(i: int, len: int)
    requires
        0 <= i < len,
    ensures
        0 <= next_index(i, len) < len,
        0 <= prev_index(i, len) < len,
        prev_index(next_index(i, len), len) == i,
        next_index(prev_index(i, len), len) == i,
{
    lemma_mod_shift(i, len);
    lemma_mod_shift(i + 1, len);
    lemma_mod_shift(i - 1, len);
    lemma_mod_shift(i + len - 1, len);
    lemma_mod_shift(i + len, len);
    lemma_mod_shift(len - 1, len);
    lemma_mod_shift(len, len);
}

/// On a valid, nonempty listing, `next` followed by `prev` (or `prev` followed by
/// `next`), as their contracts describe them, returns to the file it started from.
pub proof fn lemma_listing_round_trip(a: DirListing, b: DirListing, c: DirListing, forward: bool)
    requires
        a.wf(),
        a.files@.len() > 0,
        b.files@ == a.files@,
        b.current_index == (if forward {
            next_index(a.current_index as int, a.files@.len() as int)
        } else {
            prev_index(a.current_index as int, a.files@.len() as int)
        }),
        c.files@ == b.files@,
        c.current_index == (if forward {
            prev_index(b.current_index as int, b.files@.len() as int)
        } else {
            next_index(b.current_index as int, b.files@.len() as int)
        }),
    ensures
        c.files@ == a.files@,
        c.current_index == a.current_index,
        c.wf(),
{
    lemma_next_prev_inverse(a.current_index as int, a.files@.len() as int);
}

/// `x % len` for `x` in `[-1, 2 * len)`.
proof fn lemma_mod_shift(x: int, len: int)
    requires
        len > 0,
        -1 <= x < 2 * len,
    ensures
        0 <= x < len ==> x % len == x,
        len <= x < 2 * len ==> x % len == x - len,
        x == -1 ==> x % len == len - 1,
{
    if 0 <= x < len {
        vstd::arithmetic::div_mod::lemma_small_mod(x as nat, len as nat);
    } else if len <= x {
        vstd::arithmetic::div_mod::lemma_small_mod((x - len) as nat, len as nat);
        vstd::arithmetic::div_mod::lemma_mod_add_multiples_vanish(x - len, len);
    } else {
        vstd::arithmetic::div_mod::lemma_small_mod((len - 1) as nat, len as nat);
        vstd::arithmetic::div_mod::lemma_mod_add_multiples_vanish(-1, len);
    }
}

} // verus!

verus! {

/// One directory entry as the file system reported it.
pub struct ScannedEntry {
    /// The entry's path.
    pub path: String,
    /// Whether the path is a regular file.
    pub is_file: bool,
    /// The canonical form of the path, or the path itself where it has none.
    pub canonical: String,
}

/// The entry belongs in the listing: a regular file with a supported extension.
pub open spec fn listed(e: ScannedEntry) -> bool {
    e.is_file && supported_path(e.path@)
}

pub open spec fn entry_name(e: ScannedEntry) -> Seq<char> {
    file_name_of(e.path@)
}

/// `order` lists, by their positions in `entries`, exactly the listed entries, each once,
/// naturally sorted by file name, entries with level names kept in their scanned order.
pub open spec fn listing_order(entries: Seq<ScannedEntry>, order: Seq<int>) -> bool {
    &&& forall|k: int|
        0 <= k < order.len() ==> 0 <= #[trigger] order[k] < entries.len() && listed(
            entries[order[k]],
        )
    &&& forall|p: int, q: int|
        0 <= p < order.len() && 0 <= q < order.len() && p != q ==> #[trigger] order[p]
            != #[trigger] order[q]
    &&& forall|i: int|
        0 <= i < entries.len() && listed(#[trigger] entries[i]) ==> exists|k: int|
            0 <= k < order.len() && order[k] == i
    &&& forall|p: int, q: int|
        0 <= p < q < order.len() ==> natural_compare(
            entry_name(entries[#[trigger] order[p]]),
            entry_name(entries[#[trigger] order[q]]),
        ) <= 0
    &&& forall|p: int, q: int|
        0 <= p < q < order.len() && natural_compare(
            entry_name(entries[#[trigger] order[p]]),
            entry_name(entries[#[trigger] order[q]]),
        ) == 0 ==> order[p] < order[q]
}

/// The index of the first file whose canonical path is `current`, or 0 where none is.
pub open spec fn current_position(
    entries: Seq<ScannedEntry>,
    order: Seq<int>,
    current: Seq<char>,
    index: int,
) -> bool {
    if exists|k: int| 0 <= k < order.len() && #[trigger] entries[order[k]].canonical@ == current {
        &&& 0 <= index < order.len()
        &&& entries[order[index]].canonical@ == current
        &&& forall|k: int| 0 <= k < index ==> #[trigger] entries[order[k]].canonical@ != current
    } else {
        index == 0
    }
}

/// Builds the listing of a directory from its scanned entries: keeps the regular
/// files with a supported extension, sorts them naturally by file name (stably),
/// and points at the first one whose canonical path is `current`, or at the first
/// file where none is.
pub fn build_listing(entries: Vec<ScannedEntry>, current: String) -> (l: DirListing)
    ensures
        l.wf(),
        exists|order: Seq<int>|
            {
                &&& listing_order(entries@, order)
                &&& l.files@.len() == order.len()
                &&& forall|k: int|
                    0 <= k < order.len() ==> (#[trigger] l.files@[k])@ == entries@[order[k]].path@
                &&& current_position(entries@, order, current@, l.current_index as int)
            },
{
    let mut keyed: Vec<KeyedName> = Vec::new();
    let mut i: usize = 0;
    while i < entries.len()
        invariant
            i <= entries.len(),
            names_sorted(keyed@),
            names_stable(keyed@),
            forall|k: int|
                0 <= k < keyed@.len() ==> {
                    &&& (#[trigger] keyed@[k]).1 < i
                    &&& listed(entries@[keyed@[k].1 as int])
                    &&& keyed@[k].0@ == entry_name(entries@[keyed@[k].1 as int])
                },
            forall|p: int, q: int|
                0 <= p < keyed@.len() && 0 <= q < keyed@.len() && p != q ==> (#[trigger] keyed@[p]).1
                    != (#[trigger] keyed@[q]).1,
            forall|t: int|
                0 <= t < i && listed(#[trigger] entries@[t]) ==> exists|k: int|
                    0 <= k < keyed@.len() && keyed@[k].1 == t,
        decreases entries.len() - i,
    {
        if entries[i].is_file && is_supported(entries[i].path.as_str()) {
            let name = chars_of(file_name(entries[i].path.as_str()).as_str());
            let ghost before = keyed@;
            insert_sorted(&mut keyed, name, i);
            proof {
                let p = choose|p: int|
                    0 <= p <= before.len() && keyed@ == before.insert(p, (name, i));
                before.insert_ensures(p, (name, i));
                assert forall|k: int| 0 <= k < keyed@.len() implies {
                    &&& (#[trigger] keyed@[k]).1 < i + 1
                    &&& listed(entries@[keyed@[k].1 as int])
                    &&& keyed@[k].0@ == entry_name(entries@[keyed@[k].1 as int])
                } by {
                    if k > p {
                        assert(keyed@[k] == before[k - 1]);
                    }
                }
                assert forall|a: int, b: int|
                    0 <= a < keyed@.len() && 0 <= b < keyed@.len() && a != b implies (
                    #[trigger] keyed@[a]).1 != (#[trigger] keyed@[b]).1 by {
                    if a > p {
                        assert(keyed@[a] == before[a - 1]);
                    }
                    if b > p {
                        assert(keyed@[b] == before[b - 1]);
                    }
                }
                assert forall|t: int|
                    0 <= t < i + 1 && listed(#[trigger] entries@[t]) implies exists|k: int|
                        0 <= k < keyed@.len() && keyed@[k].1 == t by {
                    if t == i {
                        assert(keyed@[p].1 == t);
                    } else {
                        let k0 = choose|k: int| 0 <= k < before.len() && before[k].1 == t;
                        if k0 < p {
                            assert(keyed@[k0].1 == t);
                        } else {
                            assert(keyed@[k0 + 1].1 == t);
                        }
                    }
                }
            }
        }
        i = i + 1;
    }
    let ghost order = Seq::new(keyed@.len(), |k: int| keyed@[k].1 as int);
    proof {
        assert forall|t: int| 0 <= t < entries@.len() && listed(#[trigger] entries@[t]) implies exists|
            k: int,
        | 0 <= k < order.len() && order[k] == t by {
            let k0 = choose|k: int| 0 <= k < keyed@.len() && keyed@[k].1 == t;
            assert(order[k0] == t);
        }
        assert(listing_order(entries@, order));
    }
    let mut files: Vec<String> = Vec::new();
    let mut current_index: usize = 0;
    let mut found = false;
    let mut k: usize = 0;
    while k < keyed.len()
        invariant
            k <= keyed.len(),
            listing_order(entries@, order),
            order.len() == keyed@.len(),
            forall|j: int| 0 <= j < keyed@.len() ==> #[trigger] order[j] == keyed@[j].1 as int,
            forall|j: int| 0 <= j < keyed@.len() ==> (#[trigger] keyed@[j]).1 < entries@.len(),
            files@.len() == k,
            forall|j: int| 0 <= j < k ==> (#[trigger] files@[j])@ == entries@[order[j]].path@,
            found ==> {
                &&& current_index < k
                &&& entries@[order[current_index as int]].canonical@ == current@
                &&& forall|j: int|
                    0 <= j < current_index ==> #[trigger] entries@[order[j]].canonical@ != current@
            },
            !found ==> current_index == 0 && forall|j: int|
                0 <= j < k ==> #[trigger] entries@[order[j]].canonical@ != current@,
        decreases keyed.len() - k,
    {
        let idx = keyed[k].1;
        files.push(entries[idx].path.clone());
        if !found && entries[idx].canonical == current {
            found = true;
            current_index = k;
        }
        k = k + 1;
    }
    DirListing { files, current_index }
}

} // verus!
