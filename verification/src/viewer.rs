use vstd::prelude::*;

use std::collections::{HashMap, HashSet, VecDeque};

use crate::decode::DecodedImage;
use crate::dirscan::{next_index, prev_index, DirListing};

verus! {

broadcast use vstd::std_specs::hash::group_hash_axioms;

/// At most this many decoded images are kept, the one on display aside.
pub const CACHE_CAPACITY: usize = 5;

/// What arrives from a background decode.
pub enum UserEvent {
    Decoded(usize, DecodedImage),
}

/// The viewer's state apart from the window: the directory listing, the cache of
/// decoded images by listing index with the order they arrived in, the indices
/// being decoded in the background, and the frame shown of an animation.
pub struct Viewer {
    pub listing: Option<DirListing>,
    pub cache: HashMap<usize, DecodedImage>,
    pub cache_order: VecDeque<usize>,
    pub pending: HashSet<usize>,
    pub frame_index: usize,
}

/// The listing index on display, if there is a listing.
pub open spec fn current_of(listing: Option<DirListing>) -> Option<usize> {
    match listing {
        Some(l) => Some(l.current_index),
        None => None,
    }
}

/// The cached indices that evicting the first `k` queued entries drops: every
/// one of them but the index on display.
pub open spec fn evicted_keys(order: Seq<usize>, k: int, current: Option<usize>) -> Set<usize>
    decreases k,
{
    if k <= 0 {
        Set::empty()
    } else if Some(order[k - 1]) == current {
        evicted_keys(order, k - 1, current)
    } else {
        evicted_keys(order, k - 1, current).insert(order[k - 1])
    }
}

/// The entries among the first `k` queued ones that name the index on display;
/// eviction moves them to the back of the queue.
pub open spec fn current_copies(order: Seq<usize>, k: int, current: Option<usize>) -> Seq<usize>
    decreases k,
{
    if k <= 0 {
        Seq::empty()
    } else if Some(order[k - 1]) == current {
        current_copies(order, k - 1, current).push(order[k - 1])
    } else {
        current_copies(order, k - 1, current)
    }
}

proof fn lemma_current_copies(order: Seq<usize>, k: int, current: Option<usize>)
    requires
        0 <= k <= order.len(),
    ensures
        forall|i: int|
            0 <= i < current_copies(order, k, current).len() ==> Some(
                #[trigger] current_copies(order, k, current)[i],
            ) == current,
        current_copies(order, k, current).len() <= k,
    decreases k,
{
    if k > 0 {
        lemma_current_copies(order, k - 1, current);
    }
}

/// Eviction in queue order: for the least `k` at which few enough images remain,
/// the first `k` queued entries leave the queue, their images leave the cache,
/// except that entries naming the image on display go to the back of the queue.
/// At most `CACHE_CAPACITY` images remain, the one on display among them.
pub open spec fn evict_post(pre: Viewer, post: Viewer) -> bool {
    let current = current_of(pre.listing);
    &&& post.listing == pre.listing
    &&& post.pending@ == pre.pending@
    &&& post.frame_index == pre.frame_index
    &&& post.cache@.len() <= CACHE_CAPACITY
    &&& forall|k: usize|
        pre.cache@.contains_key(k) && Some(k) == current ==> #[trigger] post.cache@.contains_key(k)
    &&& exists|k: int|
        {
            &&& 0 <= k <= pre.cache_order@.len()
            &&& post.cache@ == pre.cache@.remove_keys(evicted_keys(pre.cache_order@, k, current))
            &&& post.cache_order@ == pre.cache_order@.skip(k) + current_copies(
                pre.cache_order@,
                k,
                current,
            )
            &&& forall|j: int|
                0 <= j < k ==> pre.cache@.remove_keys(
                    #[trigger] evicted_keys(pre.cache_order@, j, current),
                ).len() > CACHE_CAPACITY
        }
}

impl Viewer {
    /// The listing is valid, every cached index is queued, every cached image has
    /// a frame, and the frame index can still be stepped.
    pub open spec fn wf(&self) -> bool {
        &&& (self.listing matches Some(l) ==> l.wf())
        &&& forall|k: usize| #[trigger]
            self.cache@.contains_key(k) ==> self.cache_order@.contains(k)
        &&& forall|k: usize| #[trigger] self.cache@.contains_key(k) ==> self.cache@[k].wf()
        &&& self.frame_index < usize::MAX
    }

    /// Drops the oldest cached images, the one on display aside, until at most
    /// `CACHE_CAPACITY` remain. Entries naming the image on display move to the back
    /// of the queue as they come up.
    pub fn evict_cache(&mut self)
        requires
            old(self).wf(),
        ensures
            final(self).wf(),
            evict_post(*old(self), *final(self)),
    {
        let current: Option<usize> = match &self.listing {
            Some(l) => Some(l.current_index),
            None => None,
        };
        let ghost orig = self.cache_order@;
        let ghost orig_cache = self.cache@;
        let ghost mut j: int = 0;
        proof {
            assert(orig.skip(0) + current_copies(orig, 0, current) =~= orig);
            assert(orig_cache.remove_keys(evicted_keys(orig, 0, current)) =~= orig_cache);
        }
        loop
            invariant
                self.listing == old(self).listing,
                self.pending@ == old(self).pending@,
                self.frame_index == old(self).frame_index,
                current == current_of(self.listing),
                old(self).wf(),
                orig == old(self).cache_order@,
                orig_cache == old(self).cache@,
                0 <= j <= orig.len(),
                self.cache@ == orig_cache.remove_keys(evicted_keys(orig, j, current)),
                self.cache_order@ == orig.skip(j) + current_copies(orig, j, current),
                forall|i: int|
                    0 <= i < j ==> orig_cache.remove_keys(
                        #[trigger] evicted_keys(orig, i, current),
                    ).len() > CACHE_CAPACITY,
                forall|k: usize| #[trigger]
                    self.cache@.contains_key(k) ==> self.cache_order@.contains(k),
            ensures
                self.cache@.len() <= CACHE_CAPACITY,
                self.cache@ == orig_cache.remove_keys(evicted_keys(orig, j, current)),
                self.cache_order@ == orig.skip(j) + current_copies(orig, j, current),
                forall|i: int|
                    0 <= i < j ==> orig_cache.remove_keys(
                        #[trigger] evicted_keys(orig, i, current),
                    ).len() > CACHE_CAPACITY,
                forall|k: usize| #[trigger]
                    self.cache@.contains_key(k) ==> self.cache_order@.contains(k),
            decreases orig.len() - j,
        {
            if self.cache.len() <= CACHE_CAPACITY {
                break;
            }
            proof {
                lemma_current_copies(orig, j, current);
                if j == orig.len() {
                    let only = match current {
                        Some(c) => Set::empty().insert(c),
                        None => Set::empty(),
                    };
                    assert(self.cache_order@ =~= current_copies(orig, j, current));
                    assert(self.cache@.dom().subset_of(only)) by {
                        assert forall|k: usize| self.cache@.dom().contains(k) implies only.contains(k) by {
                            assert(self.cache_order@.contains(k));
                            let i = choose|i: int| 0 <= i < self.cache_order@.len() && self.cache_order@[i] == k;
                            assert(Some(current_copies(orig, j, current)[i]) == current);
                        }
                    }
                    vstd::set_lib::lemma_len_subset(self.cache@.dom(), only);
                    assert(false);
                }
            }
            let ghost before = self.cache_order@;
            let oldest = match self.cache_order.pop_front() {
                Some(x) => x,
                None => {
                    proof {
                        assert(false);
                    }
                    break;
                },
            };
            assert(oldest == orig[j]);
            let is_current = match current {
                Some(c) => c == oldest,
                None => false,
            };
            if is_current {
                self.cache_order.push_back(oldest);
                proof {
                    assert forall|k: usize| #[trigger] self.cache@.contains_key(k) implies self.cache_order@.contains(k) by {
                        lemma_rotation_keeps(before, k);
                    }
                    assert(self.cache_order@ =~= orig.skip(j + 1) + current_copies(orig, j + 1, current));
                    assert(evicted_keys(orig, j + 1, current) == evicted_keys(orig, j, current));
                    j = j + 1;
                }
                let mut all_current = true;
                let mut i: usize = 0;
                while i < self.cache_order.len()
                    invariant
                        i <= self.cache_order@.len(),
                        all_current == forall|t: int| 0 <= t < i ==> self.cache_order@[t] == oldest,
                    decreases self.cache_order@.len() - i,
                {
                    if self.cache_order[i] != oldest {
                        all_current = false;
                    }
                    i = i + 1;
                }
                if all_current {
                    proof {
                        assert(self.cache@.dom().subset_of(Set::empty().insert(oldest))) by {
                            assert forall|k: usize| self.cache@.dom().contains(k) implies k == oldest by {
                                assert(self.cache@.contains_key(k));
                                assert(self.cache_order@.contains(k));
                                let t = choose|t: int| 0 <= t < self.cache_order@.len() && self.cache_order@[t] == k;
                                assert(self.cache_order@[t] == oldest);
                            }
                        }
                        vstd::set_lib::lemma_len_subset(self.cache@.dom(), Set::empty().insert(oldest));
                        assert(false);
                    }
                    break;
                }
            } else {
                self.cache.remove(&oldest);
                proof {
                    assert(self.cache@ =~= orig_cache.remove_keys(evicted_keys(orig, j + 1, current)));
                    assert(self.cache_order@ =~= orig.skip(j + 1) + current_copies(orig, j + 1, current));
                    assert forall|k: usize| #[trigger] self.cache@.contains_key(k) implies self.cache_order@.contains(k) by {
                        lemma_still_queued(before, k);
                    }
                    j = j + 1;
                }
            }
        }
        proof {
            assert forall|k: usize|
                old(self).cache@.contains_key(k) && Some(k) == current implies #[trigger] self.cache@.contains_key(k) by {
                lemma_evicted_excludes_current(orig, j, current, k);
            }
        }
    }
}

proof fn lemma_evicted_excludes_current(order: Seq<usize>, k: int, current: Option<usize>, x: usize)
    requires
        Some(x) == current,
    ensures
        !evicted_keys(order, k, current).contains(x),
    decreases k,
{
    if k > 0 {
        lemma_evicted_excludes_current(order, k - 1, current, x);
    }
}

/// After the front entry leaves the queue, every other queued index is still queued.
proof fn lemma_still_queued(before: Seq<usize>, k: usize)
    requires
        before.contains(k),
        before.len() > 0,
        before[0] != k,
    ensures
        before.subrange(1, before.len() as int).contains(k),
{
    let i = choose|i: int| 0 <= i < before.len() && before[i] == k;
    assert(before.subrange(1, before.len() as int)[i - 1] == k);
}

/// Moving the front entry to the back keeps every queued index queued.
proof fn lemma_rotation_keeps(before: Seq<usize>, k: usize)
    requires
        before.contains(k),
        before.len() > 0,
    ensures
        before.subrange(1, before.len() as int).push(before[0]).contains(k),
{
    let rotated = before.subrange(1, before.len() as int).push(before[0]);
    let i = choose|i: int| 0 <= i < before.len() && before[i] == k;
    if i == 0 {
        assert(rotated[before.len() - 1] == k);
    } else {
        assert(rotated[i - 1] == k);
    }
}

} // verus!

verus! {

/// What the display has to do once an image became current: show the cached
/// image at `index` and, for an animation, schedule the next frame after
/// `first_delay_ns`.
pub struct Shown {
    pub index: usize,
    pub first_delay_ns: Option<u64>,
}

/// The outcome of a tick of an animation.
pub enum FrameStep {
    /// Nothing to do: there is no listing.
    Unchanged,
    /// The image on display is not animated (or not cached): stop ticking.
    Stop,
    /// Show frame `frame` of the image on display; tick again after `delay_ns`.
    Show { frame: usize, delay_ns: u64 },
}

/// A file to decode in the background, for its listing index.
pub struct PrefetchJob {
    pub index: usize,
    pub path: String,
}

/// The delay before the second frame of an animation; none for a still image.
pub open spec fn first_delay(img: DecodedImage) -> Option<u64> {
    if img.frames@.len() > 1 {
        Some(img.frames@[0].delay_ns)
    } else {
        None
    }
}

/// Everything but the frame index is unchanged.
pub open spec fn same_but_frame(pre: Viewer, post: Viewer) -> bool {
    &&& post.listing == pre.listing
    &&& post.cache@ == pre.cache@
    &&& post.cache_order@ == pre.cache_order@
    &&& post.pending@ == pre.pending@
}

/// The current image is cached: the display switches to it, from its first frame.
pub open spec fn apply_post(pre: Viewer, post: Viewer, r: Option<Shown>) -> bool {
    &&& same_but_frame(pre, post)
    &&& if current_of(pre.listing) is Some && pre.cache@.contains_key(
        current_of(pre.listing)->0,
    ) {
        let i = current_of(pre.listing)->0;
        &&& post.frame_index == 0
        &&& r == Some(Shown { index: i, first_delay_ns: first_delay(pre.cache@[i]) })
    } else {
        post.frame_index == pre.frame_index && r is None
    }
}

/// One tick of the animation on display.
pub open spec fn advance_post(pre: Viewer, post: Viewer, r: FrameStep) -> bool {
    &&& same_but_frame(pre, post)
    &&& match current_of(pre.listing) {
        None => r == FrameStep::Unchanged && post.frame_index == pre.frame_index,
        Some(i) => if pre.cache@.contains_key(i) && pre.cache@[i].frames@.len() > 1 {
            let img = pre.cache@[i];
            let f = (pre.frame_index + 1) % (img.frames@.len() as int);
            &&& post.frame_index == f
            &&& r == FrameStep::Show { frame: f as usize, delay_ns: img.frames@[f].delay_ns }
        } else {
            r == FrameStep::Stop && post.frame_index == pre.frame_index
        },
    }
}

/// A tick of an animation shows the frame after the one on display, wrapping
/// around, and the next tick comes after the delay of that shown frame.
pub proof fn lemma_tick_waits_for_the_shown_frame(pre: Viewer, post: Viewer, r: FrameStep)
    requires
        advance_post(pre, post, r),
        r is Show,
    ensures
        pre.listing is Some,
        pre.cache@.contains_key(pre.listing->0.current_index),
        r->frame == post.frame_index,
        r->frame as int == (pre.frame_index + 1) % (pre.cache@[pre.listing->0.current_index].frames@.len() as int),
        r->delay_ns == pre.cache@[pre.listing->0.current_index].frames@[r->frame as int].delay_ns,
{
}

/// The neighbours of the image on display that are neither cached nor being
/// decoded are marked pending and handed out, the next one first.
pub open spec fn prefetch_post(pre: Viewer, post: Viewer, jobs: Seq<PrefetchJob>) -> bool {
    &&& post.listing == pre.listing
    &&& post.cache@ == pre.cache@
    &&& post.cache_order@ == pre.cache_order@
    &&& post.frame_index == pre.frame_index
    &&& if pre.listing is Some && pre.listing->0.files@.len() > 1 {
        let l = pre.listing->0;
        let len = l.files@.len() as int;
        let n = next_index(l.current_index as int, len) as usize;
        let p = prev_index(l.current_index as int, len) as usize;
        let want_n = !pre.cache@.contains_key(n) && !pre.pending@.contains(n);
        let pending1 = if want_n {
            pre.pending@.insert(n)
        } else {
            pre.pending@
        };
        let want_p = !pre.cache@.contains_key(p) && !pending1.contains(p);
        &&& post.pending@ == (if want_p {
            pending1.insert(p)
        } else {
            pending1
        })
        &&& jobs.len() == (if want_n {
            1int
        } else {
            0
        }) + (if want_p {
            1int
        } else {
            0
        })
        &&& want_n ==> jobs[0].index == n && jobs[0].path@ == l.files@[n as int]@
        &&& want_p ==> jobs[jobs.len() - 1].index == p && jobs[jobs.len() - 1].path@
            == l.files@[p as int]@
    } else {
        jobs.len() == 0 && post.pending@ == pre.pending@
    }
}

/// The title of the window: the file name with its position, or the bare
/// application name for an empty directory.
pub open spec fn window_title_text(name: Seq<char>, position: nat, total: nat) -> Seq<char> {
    name + " ("@ + decimal(position) + " of "@ + decimal(total) + ") — WarpView"@
}

pub open spec fn digit_char(d: nat) -> char {
    ('0' as nat + d) as char
}

/// The decimal digits of `n`.
pub open spec fn decimal(n: nat) -> Seq<char>
    decreases n,
{
    if n < 10 {
        seq![digit_char(n)]
    } else {
        decimal(n / 10).push(digit_char(n % 10))
    }
}

/// The one-character text of decimal digit `d`.
fn digit_text(d: usize) -> (r: &'static str)
    requires
        d < 10,
    ensures
        r@ == seq![digit_char(d as nat)],
{
    proof {
        reveal_strlit("0");
        reveal_strlit("1");
        reveal_strlit("2");
        reveal_strlit("3");
        reveal_strlit("4");
        reveal_strlit("5");
        reveal_strlit("6");
        reveal_strlit("7");
        reveal_strlit("8");
        reveal_strlit("9");
    }
    match d {
        0 => "0",
        1 => "1",
        2 => "2",
        3 => "3",
        4 => "4",
        5 => "5",
        6 => "6",
        7 => "7",
        8 => "8",
        _ => "9",
    }
}

/// The decimal digits of `n`, most significant first.
fn decimal_string(n: usize) -> (r: String)
    ensures
        r@ == decimal(n as nat),
    decreases n,
{
    if n < 10 {
        String::from_str(digit_text(n))
    } else {
        let mut text = decimal_string(n / 10);
        text.append(digit_text(n % 10));
        assert(text@ =~= decimal(n as nat));
        text
    }
}

/// The window title: `{name} ({position} of {total}) — WarpView`.
fn window_title(name: &str, position: usize, total: usize) -> (r: String)
    ensures
        r@ == window_title_text(name@, position as nat, total as nat),
{
    let position_text = decimal_string(position);
    let total_text = decimal_string(total);
    let mut title = String::from_str(name);
    title.append(" (");
    title.append(position_text.as_str());
    title.append(" of ");
    title.append(total_text.as_str());
    title.append(") — WarpView");
    proof {
        assert(title@ =~= window_title_text(name@, position as nat, total as nat));
    }
    title
}

impl Viewer {
    pub fn new() -> (v: Viewer)
        ensures
            v.wf(),
            v.listing is None,
            v.cache@.len() == 0,
            v.cache_order@.len() == 0,
            v.pending@.len() == 0,
            v.frame_index == 0,
    {
        Viewer {
            listing: None,
            cache: HashMap::new(),
            cache_order: VecDeque::new(),
            pending: HashSet::new(),
            frame_index: 0,
        }
    }

    /// The cached image for the listing entry on display.
    pub fn current_image(&self) -> (r: Option<&DecodedImage>)
        ensures
            match current_of(self.listing) {
                Some(i) => if self.cache@.contains_key(i) {
                    r == Some(&self.cache@[i])
                } else {
                    r is None
                },
                None => r is None,
            },
    {
        let idx = match &self.listing {
            Some(l) => l.current_index,
            None => return None,
        };
        self.cache.get(&idx)
    }

    /// Switches the display to the current image when it is cached: from its
    /// first frame, with the delay before its second one if it is animated.
    pub fn apply_current(&mut self) -> (r: Option<Shown>)
        requires
            old(self).wf(),
        ensures
            final(self).wf(),
            apply_post(*old(self), *final(self), r),
    {
        let idx = match &self.listing {
            Some(l) => l.current_index,
            None => return None,
        };
        let img = match self.cache.get(&idx) {
            Some(img) => img,
            None => return None,
        };
        let first_delay_ns = if img.is_animated() {
            Some(img.frames[0].delay_ns)
        } else {
            None
        };
        self.frame_index = 0;
        Some(Shown { index: idx, first_delay_ns })
    }

    /// Advances the animation on display to its next frame, wrapping around.
    pub fn advance_frame(&mut self) -> (r: FrameStep)
        requires
            old(self).wf(),
        ensures
            final(self).wf(),
            advance_post(*old(self), *final(self), r),
            r matches FrameStep::Show { frame, .. } ==> frame < old(self).cache@[current_of(
                old(self).listing,
            )->0].frames@.len(),
            r matches FrameStep::Show { frame, delay_ns } ==> {
                &&& final(self).frame_index == frame
                &&& delay_ns == old(self).cache@[old(self).listing->0.current_index].frames@[frame as int].delay_ns
            },
    {
        let idx = match &self.listing {
            Some(l) => l.current_index,
            None => return FrameStep::Unchanged,
        };
        let img = match self.cache.get(&idx) {
            Some(img) => img,
            None => return FrameStep::Stop,
        };
        if !img.is_animated() {
            return FrameStep::Stop;
        }
        let frame = (self.frame_index + 1) % img.frames.len();
        let delay_ns = img.frames[frame].delay_ns;
        self.frame_index = frame;
        FrameStep::Show { frame, delay_ns }
    }

    /// The window title for the file on display; `None` without a listing.
    pub fn title(&self) -> (r: Option<String>)
        requires
            self.wf(),
        ensures
            match self.listing {
                None => r is None,
                Some(l) => if l.files@.len() == 0 {
                    r matches Some(t) && t@ == "WarpView"@
                } else {
                    r matches Some(t) && t@ == window_title_text(
                        crate::dirscan::file_name_of(l.files@[l.current_index as int]@),
                        (l.current_index + 1) as nat,
                        l.files@.len(),
                    )
                },
            },
    {
        let listing = match &self.listing {
            Some(l) => l,
            None => return None,
        };
        if listing.files.len() == 0 {
            return Some(String::from_str("WarpView"));
        }
        let name = crate::dirscan::file_name(listing.files[listing.current_index].as_str());
        Some(
            window_title(name.as_str(), listing.current_index + 1, listing.files.len()),
        )
    }

    /// Marks the next and previous images pending, unless cached or pending
    /// already, and hands them out to be decoded in the background.
    pub fn prefetch_neighbors(&mut self) -> (jobs: Vec<PrefetchJob>)
        requires
            old(self).wf(),
        ensures
            final(self).wf(),
            prefetch_post(*old(self), *final(self), jobs@),
    {
        let mut jobs: Vec<PrefetchJob> = Vec::new();
        let listing = match &self.listing {
            Some(l) => l,
            None => return jobs,
        };
        let len = listing.files.len();
        if len <= 1 {
            return jobs;
        }
        let idx = listing.current_index;
        proof {
            crate::dirscan::lemma_ring_steps(idx as int, len as int);
            vstd::arithmetic::div_mod::lemma_small_mod(idx as nat, len as nat);
        }
        let next_idx = if idx + 1 == len {
            0
        } else {
            idx + 1
        };
        let prev_idx = if idx == 0 {
            len - 1
        } else {
            idx - 1
        };
        if !self.cache.contains_key(&next_idx) && !self.pending.contains(&next_idx) {
            self.pending.insert(next_idx);
            jobs.push(PrefetchJob { index: next_idx, path: listing.files[next_idx].clone() });
        }
        if !self.cache.contains_key(&prev_idx) && !self.pending.contains(&prev_idx) {
            self.pending.insert(prev_idx);
            jobs.push(PrefetchJob { index: prev_idx, path: listing.files[prev_idx].clone() });
        }
        jobs
    }
}

} // verus!

verus! {

/// What stepping through the listing asks of the caller.
pub enum Navigation {
    /// No listing, or an empty one: nothing happened.
    Ignored,
    /// The new current image was cached and is shown; the jobs are to be decoded
    /// in the background.
    Cached(Option<Shown>, Vec<PrefetchJob>),
    /// The new current image must be decoded first; hand the outcome to
    /// `finish_navigation`.
    NeedsDecode { index: usize, path: String },
}

/// All the state is the same.
pub open spec fn same_state(pre: Viewer, post: Viewer) -> bool {
    same_but_frame(pre, post) && post.frame_index == pre.frame_index
}

/// A decoded image joins the cache under `index`, queued last.
pub open spec fn insert_post(pre: Viewer, post: Viewer, index: usize, img: DecodedImage) -> bool {
    &&& post.listing == pre.listing
    &&& post.cache@ == pre.cache@.insert(index, img)
    &&& post.cache_order@ == pre.cache_order@.push(index)
    &&& post.pending@ == pre.pending@
    &&& post.frame_index == pre.frame_index
}

/// The listing stepped one file forward or back, wrapping around; nothing else changed.
pub open spec fn step_post(pre: Viewer, post: Viewer, forward: bool) -> bool {
    &&& pre.listing is Some
    &&& post.listing is Some
    &&& post.listing->0.files@ == pre.listing->0.files@
    &&& post.listing->0.current_index == (if forward {
        next_index(pre.listing->0.current_index as int, pre.listing->0.files@.len() as int)
    } else {
        prev_index(pre.listing->0.current_index as int, pre.listing->0.files@.len() as int)
    })
    &&& post.cache@ == pre.cache@
    &&& post.cache_order@ == pre.cache_order@
    &&& post.pending@ == pre.pending@
    &&& post.frame_index == pre.frame_index
}

/// After a move: the neighbours are prefetched, then the cache is trimmed.
pub open spec fn settle_post(pre: Viewer, post: Viewer, jobs: Seq<PrefetchJob>) -> bool {
    exists|mid: Viewer| #[trigger] prefetch_post(pre, mid, jobs) && evict_post(mid, post)
}

impl Viewer {
    /// Prefetches the neighbours of the image on display, then trims the cache.
    fn settle(&mut self) -> (jobs: Vec<PrefetchJob>)
        requires
            old(self).wf(),
        ensures
            final(self).wf(),
            settle_post(*old(self), *final(self), jobs@),
    {
        let jobs = self.prefetch_neighbors();
        let ghost mid = *self;
        self.evict_cache();
        assert(prefetch_post(*old(self), mid, jobs@) && evict_post(mid, *self));
        jobs
    }

    /// Steps to the next (`forward`) or previous file. A cached image is shown at
    /// once and its neighbours prefetched; otherwise the caller decodes it and
    /// calls `finish_navigation`.
    pub fn navigate(&mut self, forward: bool) -> (r: Navigation)
        requires
            old(self).wf(),
        ensures
            final(self).wf(),
            old(self).listing is None || old(self).listing->0.files@.len() == 0 ==> {
                &&& r is Ignored
                &&& same_state(*old(self), *final(self))
            },
            old(self).listing is Some && old(self).listing->0.files@.len() > 0 ==> exists|
                stepped: Viewer,
            |
                {
                    &&& #[trigger] step_post(*old(self), stepped, forward)
                    &&& stepped.wf()
                    &&& if stepped.cache@.contains_key(stepped.listing->0.current_index) {
                        r matches Navigation::Cached(shown, jobs) && exists|shown_state: Viewer|
                            #[trigger] apply_post(stepped, shown_state, shown) && settle_post(
                                shown_state,
                                *final(self),
                                jobs@,
                            )
                    } else {
                        &&& r matches Navigation::NeedsDecode { index, path }
                        &&& index == stepped.listing->0.current_index
                        &&& path@ == stepped.listing->0.files@[index as int]@
                        &&& same_state(stepped, *final(self))
                    }
                },
    {
        let (idx, path) = match &mut self.listing {
            None => return Navigation::Ignored,
            Some(listing) => {
                if listing.files.len() == 0 {
                    return Navigation::Ignored;
                }
                proof {
                    crate::dirscan::lemma_next_prev_inverse(
                        listing.current_index as int,
                        listing.files.len() as int,
                    );
                }
                if forward {
                    listing.next();
                } else {
                    listing.prev();
                }
                (listing.current_index, listing.files[listing.current_index].clone())
            },
        };
        let ghost stepped = *self;
        assert(step_post(*old(self), stepped, forward));
        if self.cache.contains_key(&idx) {
            let shown = self.apply_current();
            let ghost shown_state = *self;
            let jobs = self.settle();
            assert(apply_post(stepped, shown_state, shown));
            Navigation::Cached(shown, jobs)
        } else {
            Navigation::NeedsDecode { index: idx, path }
        }
    }

    /// Completes a navigation that needed a decode: a decoded image joins the cache
    /// and is shown; either way the neighbours are prefetched and the cache trimmed.
    pub fn finish_navigation(&mut self, index: usize, decoded: Option<DecodedImage>) -> (r: (
        Option<Shown>,
        Vec<PrefetchJob>,
    ))
        requires
            old(self).wf(),
            decoded matches Some(img) ==> img.wf(),
        ensures
            final(self).wf(),
            exists|shown_state: Viewer|
                {
                    &&& match decoded {
                        Some(img) => exists|inserted: Viewer|
                            #[trigger] insert_post(*old(self), inserted, index, img) && apply_post(
                                inserted,
                                shown_state,
                                r.0,
                            ),
                        None => same_state(*old(self), shown_state) && r.0 is None,
                    }
                    &&& #[trigger] settle_post(shown_state, *final(self), r.1@)
                },
    {
        let ghost dec = decoded;
        let ghost mut inserted: Viewer = *self;
        let shown = match decoded {
            Some(img) => {
                self.cache.insert(index, img);
                self.cache_order.push_back(index);
                proof {
                    inserted = *self;
                    lemma_insert_keeps_wf(*old(self), *self, index, img);
                }
                self.apply_current()
            },
            None => None,
        };
        let ghost shown_state = *self;
        let jobs = self.settle();
        proof {
            match dec {
                Some(img) => {
                    assert(insert_post(*old(self), inserted, index, img));
                    assert(apply_post(inserted, shown_state, shown));
                },
                None => {
                    assert(same_state(*old(self), shown_state));
                },
            }
            assert(settle_post(shown_state, *self, jobs@));
            assert(match dec {
                Some(img) => exists|ins: Viewer|
                    #[trigger] insert_post(*old(self), ins, index, img) && apply_post(ins, shown_state, shown),
                None => same_state(*old(self), shown_state) && shown is None,
            });
        }
        let r = (shown, jobs);
        assert(settle_post(shown_state, *self, r.1@));
        assert(dec == decoded);
        r
    }

    /// Takes in an image decoded in the background: it is no longer pending, joins
    /// the cache, the cache is trimmed, and it is shown if it is the current one.
    pub fn handle_user_event(&mut self, event: UserEvent) -> (r: Option<Shown>)
        requires
            old(self).wf(),
            event matches UserEvent::Decoded(_, img) && img.wf(),
        ensures
            final(self).wf(),
            event matches UserEvent::Decoded(index, img) && exists|received: Viewer, trimmed: Viewer|
                {
                    &&& #[trigger] receive_post(*old(self), received, index, img)
                    &&& #[trigger] evict_post(received, trimmed)
                    &&& if current_of(old(self).listing) == Some(index) {
                        apply_post(trimmed, *final(self), r)
                    } else {
                        same_state(trimmed, *final(self)) && r is None
                    }
                },
    {
        match event {
            UserEvent::Decoded(index, img) => {
                self.pending.remove(&index);
                self.cache.insert(index, img);
                self.cache_order.push_back(index);
                let ghost received = *self;
                proof {
                    lemma_insert_keeps_wf(*old(self), *self, index, img);
                }
                self.evict_cache();
                let ghost trimmed = *self;
                let is_current = match &self.listing {
                    Some(l) => l.current_index == index,
                    None => false,
                };
                let r = if is_current {
                    self.apply_current()
                } else {
                    None
                };
                assert(receive_post(*old(self), received, index, img));
                assert(evict_post(received, trimmed));
                r
            },
        }
    }
}

/// A background decode arrived: no longer pending, cached under its index, queued last.
pub open spec fn receive_post(pre: Viewer, post: Viewer, index: usize, img: DecodedImage) -> bool {
    &&& post.listing == pre.listing
    &&& post.cache@ == pre.cache@.insert(index, img)
    &&& post.cache_order@ == pre.cache_order@.push(index)
    &&& post.pending@ == pre.pending@.remove(index)
    &&& post.frame_index == pre.frame_index
}

/// Caching a well-formed image under an index queued last keeps the state well formed.
proof fn lemma_insert_keeps_wf(pre: Viewer, post: Viewer, index: usize, img: DecodedImage)
    requires
        pre.wf(),
        img.wf(),
        post.listing == pre.listing,
        post.cache@ == pre.cache@.insert(index, img),
        post.cache_order@ == pre.cache_order@.push(index),
        post.frame_index == pre.frame_index,
    ensures
        post.wf(),
{
    assert forall|k: usize| #[trigger] post.cache@.contains_key(k) implies post.cache_order@.contains(
        k,
    ) by {
        if k == index {
            assert(post.cache_order@[pre.cache_order@.len() as int] == k);
        } else {
            assert(pre.cache_order@.contains(k));
            let i = choose|i: int| 0 <= i < pre.cache_order@.len() && pre.cache_order@[i] == k;
            assert(post.cache_order@[i] == k);
        }
    }
}

} // verus!

verus! {

/// The listing is set and nothing else changed.
pub open spec fn listing_set_post(pre: Viewer, post: Viewer, listing: DirListing) -> bool {
    &&& post.listing == Some(listing)
    &&& post.cache@ == pre.cache@
    &&& post.cache_order@ == pre.cache_order@
    &&& post.pending@ == pre.pending@
    &&& post.frame_index == pre.frame_index
}

impl Viewer {
    /// Sets up the viewer once the directory is scanned and the first image decoded:
    /// the image is cached under the listing's current index and shown, and its
    /// neighbours are prefetched.
    pub fn start(&mut self, listing: DirListing, img: DecodedImage) -> (r: (
        Option<Shown>,
        Vec<PrefetchJob>,
    ))
        requires
            old(self).wf(),
            listing.wf(),
            img.wf(),
        ensures
            final(self).wf(),
            exists|listed: Viewer, inserted: Viewer, shown_state: Viewer|
                {
                    &&& #[trigger] listing_set_post(*old(self), listed, listing)
                    &&& #[trigger] insert_post(listed, inserted, listing.current_index, img)
                    &&& #[trigger] apply_post(inserted, shown_state, r.0)
                    &&& prefetch_post(shown_state, *final(self), r.1@)
                },
    {
        let ghost the_listing = listing;
        let idx = listing.current_index;
        self.listing = Some(listing);
        let ghost listed = *self;
        self.cache.insert(idx, img);
        self.cache_order.push_back(idx);
        let ghost inserted = *self;
        proof {
            lemma_insert_keeps_wf(listed, *self, idx, img);
        }
        let shown = self.apply_current();
        let ghost shown_state = *self;
        let jobs = self.prefetch_neighbors();
        let r = (shown, jobs);
        assert(listing_set_post(*old(self), listed, the_listing));
        assert(insert_post(listed, inserted, the_listing.current_index, img));
        assert(apply_post(inserted, shown_state, r.0));
        assert(prefetch_post(shown_state, *self, r.1@));
        r
    }
}

/// The keys the viewer reacts to.
#[derive(PartialEq, Eq, Structural, Clone, Copy, Debug)]
pub enum Key {
    Space,
    ArrowRight,
    ArrowLeft,
    Other,
}

/// Which way a key press moves through the listing: forward for space and the
/// right arrow, back for the left arrow; releases and other keys do nothing.
pub fn navigation_for_key(pressed: bool, key: Key) -> (r: Option<bool>)
    ensures
        r == (if !pressed {
            None
        } else {
            match key {
                Key::Space | Key::ArrowRight => Some(true),
                Key::ArrowLeft => Some(false),
                Key::Other => None,
            }
        }),
{
    if !pressed {
        return None;
    }
    match key {
        Key::Space | Key::ArrowRight => Some(true),
        Key::ArrowLeft => Some(false),
        Key::Other => None,
    }
}

} // verus!

verus! {

/// Stepping forward and then back through the listing, or back and then forward,
/// returns to the file that was on display.
pub proof fn lemma_navigation_round_trip(a: Viewer, b: Viewer, c: Viewer, forward: bool)
    requires
        a.wf(),
        a.listing->0.files@.len() > 0,
        step_post(a, b, forward),
        step_post(b, c, !forward),
    ensures
        c.listing->0.current_index == a.listing->0.current_index,
        c.listing->0.files@ == a.listing->0.files@,
{
    crate::dirscan::lemma_next_prev_inverse(
        a.listing->0.current_index as int,
        a.listing->0.files@.len() as int,
    );
}

} // verus!
