//! The list of images: an ordered map from image id to image, with the
//! counters that a refresh keeps while it lists and inspects images.
use indexmap::IndexMap;
use vstd::prelude::*;

use crate::image::{is_unused, string_views, Image, ImageView};
use crate::index_map::{
    has_key, image_entries, image_map_contains_key, image_map_get_index, image_map_insert,
    image_map_len, image_map_new, image_map_shift_remove_full, index_of, inserted, keys_distinct,
    lemma_index_of, lemma_push_keeps_distinct, lemma_remove_keeps_distinct,
    lemma_update_keeps_distinct, without_key,
};
use crate::list_model::{one_added, one_removed, ItemsChanged, PropertyValue};
use crate::text::str_equals;

verus! {

/// What went wrong while the list was refreshed.
#[derive(Clone, Debug)]
pub enum Error {
    /// The images could not be listed.
    List,
    /// The image with this id could not be inspected.
    Inspect(String),
}

/// The properties that an image list shows to its observers.
#[derive(PartialEq, Eq, Structural, Clone, Copy, Debug)]
pub enum ImageListProperty {
    Fetched,
    Len,
    Listing,
    ToFetch,
}

/// What an event about images asks of the list.
#[derive(PartialEq, Eq, Structural, Clone, Copy, Debug)]
pub enum EventOutcome {
    /// The image was removed; the change to report, if it was in the list.
    Removed(Option<ItemsChanged>),
    /// A refresh was started; whether `listing` changed.
    Refresh(bool),
    /// The action is not one the list knows.
    Unknown,
}

/// What follows from a successful listing of the images.
pub struct RefreshPlan {
    /// The changes to report for the images that are no longer there, in order.
    pub removed: Vec<ItemsChanged>,
    /// The ids of the listed images that are not in the list yet: each is to be inspected.
    pub to_inspect: Vec<String>,
    /// Whether `listing` changed.
    pub notify_listing: bool,
    /// Whether `fetched` changed.
    pub notify_fetched: bool,
    /// Whether `to_fetch` changed.
    pub notify_to_fetch: bool,
}

/// The list of images, keyed by image id, in the order they came in.
pub struct ImageList {
    fetched: u32,
    list: IndexMap<String, Image>,
    listing: bool,
    to_fetch: u32,
    /// The ids handed out for inspection by the last listing and not yet
    /// inspected or given up.
    pending: Ghost<Seq<Seq<char>>>,
}

/// An image list as a mathematical value.
pub ghost struct ImageListView {
    pub fetched: u32,
    pub listing: bool,
    pub to_fetch: u32,
    pub entries: Seq<(Seq<char>, ImageView)>,
    pub pending: Seq<Seq<char>>,
}

impl View for ImageList {
    type V = ImageListView;

    closed spec fn view(&self) -> ImageListView {
        ImageListView {
            fetched: self.fetched,
            listing: self.listing,
            to_fetch: self.to_fetch,
            entries: image_entries(self.list),
            pending: self.pending@,
        }
    }
}

/// A refresh is on track: the images inspected and those still awaited are no
/// more than the listing asked for.
pub open spec fn fetch_progress_ok(v: ImageListView) -> bool {
    v.fetched + v.pending.len() <= v.to_fetch
}

/// Law: while a refresh is on track, no more images have been fetched than
/// were to be fetched.
pub proof fn law_fetched_within_to_fetch(v: ImageListView)
    requires
        fetch_progress_ok(v),
    ensures
        v.fetched <= v.to_fetch,
{
}

// ---------------------------------------------------------------------------
// Sums and counts over the entries
// ---------------------------------------------------------------------------

/// The sizes of all images, added up.
pub open spec fn size_sum(e: Seq<(Seq<char>, ImageView)>) -> int
    decreases e.len(),
{
    if e.len() == 0 {
        0
    } else {
        size_sum(e.drop_last()) + e.last().1.size
    }
}

/// The number of unused images.
pub open spec fn unused_count(e: Seq<(Seq<char>, ImageView)>) -> int
    decreases e.len(),
{
    if e.len() == 0 {
        0
    } else {
        unused_count(e.drop_last()) + if is_unused(e.last().1) {
            1int
        } else {
            0int
        }
    }
}

/// The sizes of the unused images, added up.
pub open spec fn unused_size_sum(e: Seq<(Seq<char>, ImageView)>) -> int
    decreases e.len(),
{
    if e.len() == 0 {
        0
    } else {
        unused_size_sum(e.drop_last()) + if is_unused(e.last().1) {
            e.last().1.size as int
        } else {
            0int
        }
    }
}

/// A prefix of the entries has no larger sums or counts than all of them.
pub proof fn lemma_prefix_sums(e: Seq<(Seq<char>, ImageView)>, i: int)
    requires
        0 <= i <= e.len(),
    ensures
        0 <= size_sum(e.take(i)) <= size_sum(e),
        0 <= unused_count(e.take(i)) <= unused_count(e),
        0 <= unused_size_sum(e.take(i)) <= unused_size_sum(e),
        unused_size_sum(e) <= size_sum(e),
        unused_count(e) <= e.len(),
    decreases e.len(),
{
    if e.len() > 0 {
        if i == e.len() {
            assert(e.take(i) =~= e);
            lemma_prefix_sums(e.drop_last(), i - 1);
        } else {
            assert(e.drop_last().take(i) =~= e.take(i));
            lemma_prefix_sums(e.drop_last(), i);
        }
    } else {
        assert(e.take(i) =~= e);
    }
}

/// Extending a prefix by one entry adds that entry to each sum and count.
pub proof fn lemma_prefix_step(e: Seq<(Seq<char>, ImageView)>, i: int)
    requires
        0 <= i < e.len(),
    ensures
        size_sum(e.take(i + 1)) == size_sum(e.take(i)) + e[i].1.size,
        unused_count(e.take(i + 1)) == unused_count(e.take(i)) + if is_unused(e[i].1) {
            1int
        } else {
            0int
        },
        unused_size_sum(e.take(i + 1)) == unused_size_sum(e.take(i)) + if is_unused(e[i].1) {
            e[i].1.size as int
        } else {
            0int
        },
{
    assert(e.take(i + 1).drop_last() =~= e.take(i));
}

// ---------------------------------------------------------------------------
// Reconciling the list with a listing
// ---------------------------------------------------------------------------

/// The entries whose key is among `ids`, in order.
pub open spec fn kept<V>(e: Seq<(Seq<char>, V)>, ids: Seq<Seq<char>>) -> Seq<(Seq<char>, V)>
    decreases e.len(),
{
    if e.len() == 0 {
        Seq::empty()
    } else if ids.contains(e.last().0) {
        kept(e.drop_last(), ids).push(e.last())
    } else {
        kept(e.drop_last(), ids)
    }
}

/// The changes reported while the entries whose key is not among `ids` are
/// taken out one after another, first to last: each at the position it has
/// then, which is the number of kept entries before it.
pub open spec fn removal_events<V>(e: Seq<(Seq<char>, V)>, ids: Seq<Seq<char>>) -> Seq<
    ItemsChanged,
>
    decreases e.len(),
{
    if e.len() == 0 {
        Seq::empty()
    } else if ids.contains(e.last().0) {
        removal_events(e.drop_last(), ids)
    } else {
        removal_events(e.drop_last(), ids).push(
            one_removed(kept(e.drop_last(), ids).len() as u32),
        )
    }
}

/// The ids, in order, that no entry has as its key.
pub open spec fn missing<V>(ids: Seq<Seq<char>>, e: Seq<(Seq<char>, V)>) -> Seq<Seq<char>>
    decreases ids.len(),
{
    if ids.len() == 0 {
        Seq::empty()
    } else if has_key(e, ids.last()) {
        missing(ids.drop_last(), e)
    } else {
        missing(ids.drop_last(), e).push(ids.last())
    }
}

/// Every key that stays is among `ids`, and every stayer was an entry.
pub proof fn lemma_kept_keys<V>(e: Seq<(Seq<char>, V)>, ids: Seq<Seq<char>>)
    ensures
        forall|i: int| 0 <= i < kept(e, ids).len() ==> ids.contains(#[trigger] kept(e, ids)[i].0),
        forall|i: int| 0 <= i < kept(e, ids).len() ==> e.contains(#[trigger] kept(e, ids)[i]),
        forall|i: int|
            0 <= i < e.len() && ids.contains(#[trigger] e[i].0) ==> kept(e, ids).contains(e[i]),
        kept(e, ids).len() <= e.len(),
    decreases e.len(),
{
    if e.len() > 0 {
        let init = e.drop_last();
        lemma_kept_keys(init, ids);
        let k = kept(e, ids);
        let ki = kept(init, ids);
        assert forall|i: int| 0 <= i < k.len() implies ids.contains(#[trigger] k[i].0)
            && e.contains(k[i]) by {
            if i < ki.len() {
                assert(k[i] == ki[i]);
                let j = choose|j: int| 0 <= j < init.len() && init[j] == ki[i];
                assert(e[j] == init[j]);
            } else {
                assert(k[i] == e.last());
                assert(e[e.len() - 1] == e.last());
            }
        }
        assert forall|i: int| 0 <= i < e.len() && ids.contains(#[trigger] e[i].0) implies k.contains(
            e[i],
        ) by {
            if i < init.len() {
                assert(init[i] == e[i]);
                let j = choose|j: int| 0 <= j < ki.len() && ki[j] == init[i];
                assert(k[j] == ki[j]);
            } else {
                assert(k[k.len() - 1] == e.last());
            }
        }
    }
}

/// Keeping the entries of distinct keys keeps the keys distinct.
pub proof fn lemma_kept_distinct<V>(e: Seq<(Seq<char>, V)>, ids: Seq<Seq<char>>)
    requires
        keys_distinct(e),
    ensures
        keys_distinct(kept(e, ids)),
    decreases e.len(),
{
    if e.len() > 0 {
        let init = e.drop_last();
        assert(keys_distinct(init)) by {
            assert forall|a: int, b: int|
                0 <= a < init.len() && 0 <= b < init.len() && a != b implies init[a].0
                != init[b].0 by {
                assert(init[a] == e[a]);
                assert(init[b] == e[b]);
            }
        }
        lemma_kept_distinct(init, ids);
        lemma_kept_keys(init, ids);
        let ki = kept(init, ids);
        if ids.contains(e.last().0) {
            assert(!has_key(ki, e.last().0)) by {
                if has_key(ki, e.last().0) {
                    let j = choose|j: int| 0 <= j < ki.len() && #[trigger] ki[j].0 == e.last().0;
                    let m = choose|m: int| 0 <= m < init.len() && init[m] == ki[j];
                    assert(e[m] == init[m]);
                    assert(e[e.len() - 1] == e.last());
                }
            }
            lemma_push_keeps_distinct(ki, e.last().0, e.last().1);
            assert(ki.push((e.last().0, e.last().1)) =~= ki.push(e.last()));
        }
    }
}

/// An id is missing exactly when it is among `ids` and no entry has it.
pub proof fn lemma_missing<V>(ids: Seq<Seq<char>>, e: Seq<(Seq<char>, V)>)
    ensures
        forall|x: Seq<char>| #[trigger] missing(ids, e).contains(x) <==> ids.contains(x) && !has_key(e, x),
    decreases ids.len(),
{
    if ids.len() > 0 {
        let init = ids.drop_last();
        lemma_missing(init, e);
        let m = missing(ids, e);
        let mi = missing(init, e);
        assert forall|x: Seq<char>| #[trigger] m.contains(x) <==> ids.contains(x) && !has_key(e, x) by {
            if m.contains(x) {
                let j = choose|j: int| 0 <= j < m.len() && m[j] == x;
                if j < mi.len() {
                    assert(m[j] == mi[j]);
                    assert(mi.contains(x));
                    let q = choose|q: int| 0 <= q < init.len() && init[q] == x;
                    assert(ids[q] == x);
                } else {
                    assert(x == ids.last());
                    assert(ids[ids.len() - 1] == x);
                }
            }
            if ids.contains(x) && !has_key(e, x) {
                let q = choose|q: int| 0 <= q < ids.len() && ids[q] == x;
                if q < init.len() {
                    assert(init[q] == x);
                    assert(init.contains(x));
                    assert(mi.contains(x));
                    let j = choose|j: int| 0 <= j < mi.len() && mi[j] == x;
                    if has_key(e, ids.last()) {
                        assert(m == mi);
                    } else {
                        assert(m == mi.push(ids.last()));
                        assert(m[j] == mi[j]);
                    }
                    assert(m[j] == x);
                } else {
                    assert(m[m.len() - 1] == x);
                }
            }
        }
    }
}

/// Every entry is either kept or reported as removed.
pub proof fn lemma_removal_events_len<V>(e: Seq<(Seq<char>, V)>, ids: Seq<Seq<char>>)
    ensures
        removal_events(e, ids).len() + kept(e, ids).len() == e.len(),
    decreases e.len(),
{
    if e.len() > 0 {
        lemma_removal_events_len(e.drop_last(), ids);
    }
}

/// Law: each change that a refresh reports removes one item at a position
/// inside the list as it stands then: before the `j`-th removal the list holds
/// `e.len() - j` items.
pub proof fn law_removal_positions_in_range<V>(e: Seq<(Seq<char>, V)>, ids: Seq<Seq<char>>)
    requires
        e.len() <= u32::MAX,
    ensures
        forall|j: int|
            0 <= j < removal_events(e, ids).len() ==> (#[trigger] removal_events(e, ids)[j]).removed
                == 1 && removal_events(e, ids)[j].added == 0 && removal_events(e, ids)[j].position
                < e.len() - j,
    decreases e.len(),
{
    if e.len() > 0 {
        let init = e.drop_last();
        law_removal_positions_in_range(init, ids);
        lemma_removal_events_len(init, ids);
        lemma_kept_keys(init, ids);
        let ev = removal_events(e, ids);
        let ei = removal_events(init, ids);
        assert forall|j: int| 0 <= j < ev.len() implies (#[trigger] ev[j]).removed == 1
            && ev[j].added == 0 && ev[j].position < e.len() - j by {
            if j < ei.len() {
                assert(ev[j] == ei[j]);
            }
        }
    }
}

/// Law: reconciling the list with a listing of ids leaves exactly the listed
/// images that were there, in their order, with distinct ids; each listed id
/// is then either in the list or to be inspected, never both; and each image
/// was either kept or reported as removed.
pub proof fn law_refresh_reconciles<V>(e: Seq<(Seq<char>, V)>, ids: Seq<Seq<char>>)
    requires
        keys_distinct(e),
    ensures
        keys_distinct(kept(e, ids)),
        forall|i: int| 0 <= i < kept(e, ids).len() ==> ids.contains(#[trigger] kept(e, ids)[i].0),
        forall|i: int| 0 <= i < kept(e, ids).len() ==> e.contains(#[trigger] kept(e, ids)[i]),
        forall|i: int|
            0 <= i < e.len() && ids.contains(#[trigger] e[i].0) ==> kept(e, ids).contains(e[i]),
        forall|x: Seq<char>|
            #[trigger] ids.contains(x) ==> has_key(kept(e, ids), x) || missing(ids, kept(e, ids)).contains(x),
        forall|x: Seq<char>|
            #[trigger] missing(ids, kept(e, ids)).contains(x) ==> ids.contains(x) && !has_key(kept(e, ids), x),
        removal_events(e, ids).len() + kept(e, ids).len() == e.len(),
{
    lemma_kept_distinct(e, ids);
    lemma_kept_keys(e, ids);
    lemma_missing(ids, kept(e, ids));
    lemma_removal_events_len(e, ids);
}

/// The entries after the pairs `(ks[i], vs[i])` are put in one after another.
pub open spec fn inserted_all<V>(e: Seq<(Seq<char>, V)>, ks: Seq<Seq<char>>, vs: Seq<V>) -> Seq<
    (Seq<char>, V),
>
    decreases ks.len(),
{
    if ks.len() == 0 {
        e
    } else {
        inserted(inserted_all(e, ks.drop_last(), vs), ks.last(), vs[ks.len() - 1])
    }
}

/// Putting in pairs keeps the keys distinct and adds exactly their keys.
pub proof fn lemma_inserted_all<V>(e: Seq<(Seq<char>, V)>, ks: Seq<Seq<char>>, vs: Seq<V>)
    requires
        keys_distinct(e),
    ensures
        keys_distinct(inserted_all(e, ks, vs)),
        forall|x: Seq<char>|
            #[trigger] has_key(inserted_all(e, ks, vs), x) <==> has_key(e, x) || ks.contains(x),
    decreases ks.len(),
{
    if ks.len() > 0 {
        let init = ks.drop_last();
        lemma_inserted_all(e, init, vs);
        let prev = inserted_all(e, init, vs);
        crate::index_map::law_read_after_insert(prev, ks.last(), vs[ks.len() - 1]);
        assert forall|x: Seq<char>|
            #[trigger] has_key(inserted_all(e, ks, vs), x) <==> has_key(e, x) || ks.contains(x) by {
            let cur = inserted_all(e, ks, vs);
            assert(cur == inserted(prev, ks.last(), vs[ks.len() - 1]));
            assert(has_key(prev, x) == (has_key(e, x) || init.contains(x)));
            if x != ks.last() {
                assert(has_key(cur, x) == has_key(prev, x));
            }
            if x == ks.last() {
                assert(ks[ks.len() - 1] == x);
            } else {
                if ks.contains(x) {
                    let q = choose|q: int| 0 <= q < ks.len() && ks[q] == x;
                    assert(init[q] == x);
                }
                if init.contains(x) {
                    let q = choose|q: int| 0 <= q < init.len() && init[q] == x;
                    assert(ks[q] == x);
                }
            }
        }
    }
}

/// Law: once every id that a refresh left to inspect has been inspected and
/// put in, the list holds exactly the listed ids, each once.
pub proof fn law_refresh_then_inspect_mirrors_listing<V>(
    e: Seq<(Seq<char>, V)>,
    ids: Seq<Seq<char>>,
    inspected: Seq<V>,
)
    requires
        keys_distinct(e),
        inspected.len() == missing(ids, kept(e, ids)).len(),
    ensures
        keys_distinct(inserted_all(kept(e, ids), missing(ids, kept(e, ids)), inspected)),
        forall|x: Seq<char>|
            #[trigger] has_key(
                inserted_all(kept(e, ids), missing(ids, kept(e, ids)), inspected),
                x,
            ) <==> ids.contains(x),
{
    let f = kept(e, ids);
    let m = missing(ids, f);
    law_refresh_reconciles(e, ids);
    lemma_inserted_all(f, m, inspected);
    assert forall|x: Seq<char>| #[trigger] has_key(inserted_all(f, m, inspected), x) <==> ids.contains(x) by {
        if has_key(f, x) {
            let j = choose|j: int| 0 <= j < f.len() && #[trigger] f[j].0 == x;
            assert(ids.contains(f[j].0));
        }
        if ids.contains(x) {
            assert(has_key(f, x) || m.contains(x));
        }
        if m.contains(x) {
            assert(ids.contains(x));
        }
    }
}

/// Law: the unused images are among all images, so they are no more in number
/// and take no more space; with no unused image they take no space, and when
/// every image is unused they take all of it.
pub proof fn law_unused_within_total(e: Seq<(Seq<char>, ImageView)>)
    ensures
        0 <= unused_count(e) <= e.len(),
        0 <= unused_size_sum(e) <= size_sum(e),
        unused_count(e) == 0 ==> unused_size_sum(e) == 0,
        unused_count(e) == e.len() ==> unused_size_sum(e) == size_sum(e),
    decreases e.len(),
{
    lemma_prefix_sums(e, 0);
    if e.len() > 0 {
        law_unused_within_total(e.drop_last());
    }
}

/// Law: an image counts as unused exactly when it has no repository tag. The
/// empty list has none; appending an image with no tag adds one to the count
/// and its size to the unused size, and appending a tagged image changes
/// neither.
pub proof fn law_unused_means_untagged(
    e: Seq<(Seq<char>, ImageView)>,
    k: Seq<char>,
    v: ImageView,
)
    ensures
        unused_count(Seq::<(Seq<char>, ImageView)>::empty()) == 0,
        unused_size_sum(Seq::<(Seq<char>, ImageView)>::empty()) == 0,
        v.repo_tags.len() == 0 ==> unused_count(e.push((k, v))) == unused_count(e) + 1
            && unused_size_sum(e.push((k, v))) == unused_size_sum(e) + v.size,
        v.repo_tags.len() > 0 ==> unused_count(e.push((k, v))) == unused_count(e)
            && unused_size_sum(e.push((k, v))) == unused_size_sum(e),
        size_sum(e.push((k, v))) == size_sum(e) + v.size,
{
    assert(e.push((k, v)).drop_last() =~= e);
}

/// Law: a list whose images all carry a tag has no unused image and no unused size.
pub proof fn law_tagged_images_are_used(e: Seq<(Seq<char>, ImageView)>)
    requires
        forall|j: int| 0 <= j < e.len() ==> (#[trigger] e[j]).1.repo_tags.len() > 0,
    ensures
        unused_count(e) == 0,
        unused_size_sum(e) == 0,
    decreases e.len(),
{
    if e.len() > 0 {
        let init = e.drop_last();
        assert forall|j: int| 0 <= j < init.len() implies (#[trigger] init[j]).1.repo_tags.len() > 0 by {
            assert(init[j] == e[j]);
        }
        law_tagged_images_are_used(init);
        assert(e[e.len() - 1] == e.last());
    }
}

// ---------------------------------------------------------------------------
// The invariant of refreshes that do not overlap
// ---------------------------------------------------------------------------

/// The awaited ids are distinct and none of them is in the list yet.
pub open spec fn pending_fresh(v: ImageListView) -> bool {
    &&& v.pending.no_duplicates()
    &&& forall|x: Seq<char>| #[trigger] v.pending.contains(x) ==> !has_key(v.entries, x)
}

/// What holds in every state that a list reaches when each refresh ends
/// before the next begins and each listing names distinct ids: distinct ids in
/// the list, a refresh on track, and awaited ids that are new.
pub open spec fn image_list_inv(v: ImageListView) -> bool {
    &&& keys_distinct(v.entries)
    &&& fetch_progress_ok(v)
    &&& pending_fresh(v)
}

/// Taking an awaited id off a sequence of distinct ids leaves the others.
pub proof fn lemma_remove_value_distinct(p: Seq<Seq<char>>, k: Seq<char>)
    requires
        p.no_duplicates(),
    ensures
        p.remove_value(k).no_duplicates(),
        forall|x: Seq<char>|
            #[trigger] p.remove_value(k).contains(x) <==> p.contains(x) && x != k,
        p.contains(k) ==> p.remove_value(k).len() == p.len() - 1,
        !p.contains(k) ==> p.remove_value(k) == p,
{
    p.index_of_first_ensures(k);
    if p.contains(k) {
        let i = p.index_of_first(k).unwrap();
        let r = p.remove(i);
        assert(p.remove_value(k) == r);
        assert forall|a: int, b: int| 0 <= a < r.len() && 0 <= b < r.len() && a != b implies r[a]
            != r[b] by {
            let a0 = if a < i { a } else { a + 1 };
            let b0 = if b < i { b } else { b + 1 };
            assert(r[a] == p[a0]);
            assert(r[b] == p[b0]);
        }
        assert forall|x: Seq<char>| #[trigger] r.contains(x) <==> p.contains(x) && x != k by {
            if r.contains(x) {
                let a = choose|a: int| 0 <= a < r.len() && r[a] == x;
                let a0 = if a < i { a } else { a + 1 };
                assert(r[a] == p[a0]);
                assert(a0 != i);
            }
            if p.contains(x) && x != k {
                let a0 = choose|a: int| 0 <= a < p.len() && p[a] == x;
                assert(a0 != i);
                let a = if a0 < i { a0 } else { a0 - 1 };
                assert(r[a] == p[a0]);
            }
        }
    }
}

/// The ids missing from a list, out of distinct ids, are distinct.
pub proof fn lemma_missing_distinct<V>(ids: Seq<Seq<char>>, e: Seq<(Seq<char>, V)>)
    requires
        ids.no_duplicates(),
    ensures
        missing(ids, e).no_duplicates(),
    decreases ids.len(),
{
    if ids.len() > 0 {
        let init = ids.drop_last();
        assert(init.no_duplicates()) by {
            assert forall|a: int, b: int|
                0 <= a < init.len() && 0 <= b < init.len() && a != b implies init[a] != init[b] by {
                assert(init[a] == ids[a] && init[b] == ids[b]);
            }
        }
        lemma_missing_distinct(init, e);
        lemma_missing(init, e);
        let mi = missing(init, e);
        if !has_key(e, ids.last()) {
            assert(!mi.contains(ids.last())) by {
                if mi.contains(ids.last()) {
                    assert(init.contains(ids.last()));
                    let q = choose|q: int| 0 <= q < init.len() && init[q] == ids.last();
                    assert(ids[q] == ids[ids.len() - 1]);
                }
            }
            let m = mi.push(ids.last());
            assert forall|a: int, b: int| 0 <= a < m.len() && 0 <= b < m.len() && a != b implies m[a]
                != m[b] by {
                if a < mi.len() && b < mi.len() {
                    assert(m[a] == mi[a] && m[b] == mi[b]);
                } else if a < mi.len() {
                    assert(m[a] == mi[a]);
                    assert(mi.contains(mi[a]));
                } else {
                    assert(m[b] == mi[b]);
                    assert(mi.contains(mi[b]));
                }
            }
        }
    }
}

/// Law: a new list is in the invariant.
pub proof fn law_invariant_new(v: ImageListView)
    requires
        v.entries.len() == 0,
        v.pending.len() == 0,
        v.fetched == 0,
        v.to_fetch == 0,
    ensures
        image_list_inv(v),
{
}

/// Law: taking an image out keeps the invariant; the change it reports
/// removes one item at a position inside the list, which is one shorter after.
pub proof fn law_invariant_remove(v: ImageListView, k: Seq<char>)
    requires
        image_list_inv(v),
    ensures
        image_list_inv(ImageListView { entries: without_key(v.entries, k), ..v }),
        has_key(v.entries, k) ==> 0 <= index_of(v.entries, k) < v.entries.len()
            && without_key(v.entries, k).len() == v.entries.len() - 1,
{
    crate::index_map::law_without_key(v.entries, k);
    if has_key(v.entries, k) {
        let i = choose|i: int| 0 <= i < v.entries.len() && #[trigger] v.entries[i].0 == k;
        lemma_index_of(v.entries, k, i);
    }
    let w = ImageListView { entries: without_key(v.entries, k), ..v };
    assert forall|x: Seq<char>| #[trigger] w.pending.contains(x) implies !has_key(w.entries, x) by {
        assert(!has_key(v.entries, x));
    }
}

/// Law: a listing of distinct ids puts the list into the invariant; its
/// change reports each remove one item at a position inside the list as it
/// stands then, and the list is then as many items shorter as were reported.
pub proof fn law_invariant_refresh(v: ImageListView, ids: Seq<Seq<char>>)
    requires
        keys_distinct(v.entries),
        ids.no_duplicates(),
        v.entries.len() <= u32::MAX,
        missing(ids, kept(v.entries, ids)).len() <= u32::MAX,
    ensures
        image_list_inv(
            ImageListView {
                entries: kept(v.entries, ids),
                pending: missing(ids, kept(v.entries, ids)),
                fetched: 0,
                to_fetch: missing(ids, kept(v.entries, ids)).len() as u32,
                listing: false,
            },
        ),
        forall|j: int|
            0 <= j < removal_events(v.entries, ids).len() ==> (#[trigger] removal_events(
                v.entries,
                ids,
            )[j]).position < v.entries.len() - j,
        kept(v.entries, ids).len() == v.entries.len() - removal_events(v.entries, ids).len(),
{
    law_refresh_reconciles(v.entries, ids);
    law_removal_positions_in_range(v.entries, ids);
    lemma_missing_distinct(ids, kept(v.entries, ids));
}

/// Law: putting in an awaited image keeps the invariant; the image is new,
/// so the list grows by one and the reported change adds it at the old end.
pub proof fn law_invariant_inspected(v: ImageListView, k: Seq<char>, image: ImageView)
    requires
        image_list_inv(v),
        v.pending.contains(k),
    ensures
        !has_key(v.entries, k),
        inserted(v.entries, k, image).len() == v.entries.len() + 1,
        image_list_inv(
            ImageListView {
                entries: inserted(v.entries, k, image),
                pending: v.pending.remove_value(k),
                fetched: (v.fetched + 1) as u32,
                ..v
            },
        ),
{
    crate::index_map::law_read_after_insert(v.entries, k, image);
    lemma_remove_value_distinct(v.pending, k);
    let w = ImageListView {
        entries: inserted(v.entries, k, image),
        pending: v.pending.remove_value(k),
        fetched: (v.fetched + 1) as u32,
        ..v
    };
    assert forall|x: Seq<char>| #[trigger] w.pending.contains(x) implies !has_key(w.entries, x) by {
        assert(v.pending.contains(x) && x != k);
        assert(!has_key(v.entries, x));
    }
}

/// Law: giving up an awaited image keeps the invariant.
pub proof fn law_invariant_failed(v: ImageListView, k: Seq<char>)
    requires
        image_list_inv(v),
    ensures
        image_list_inv(ImageListView { pending: v.pending.remove_value(k), ..v }),
{
    lemma_remove_value_distinct(v.pending, k);
    let w = ImageListView { pending: v.pending.remove_value(k), ..v };
    assert forall|x: Seq<char>| #[trigger] w.pending.contains(x) implies !has_key(w.entries, x) by {
        assert(v.pending.contains(x));
    }
}

/// Tells whether `key` is among `ids`.
fn ids_contain(ids: &Vec<String>, key: &String) -> (r: bool)
    ensures
        r == string_views(ids@).contains(key@),
{
    let n = ids.len();
    let mut i: usize = 0;
    while i < n
        invariant
            n == ids.len(),
            i <= n,
            forall|j: int| 0 <= j < i ==> string_views(ids@)[j] != key@,
        decreases n - i,
    {
        if ids[i] == *key {
            assert(string_views(ids@)[i as int] == key@);
            return true;
        }
        i += 1;
    }
    false
}

impl ImageList {
    /// The list's own invariant: no id occurs twice.
    pub open spec fn wf(&self) -> bool {
        keys_distinct(self@.entries)
    }

    /// Every list keeps its ids distinct.
    #[verifier::type_invariant]
    spec fn ids_distinct(self) -> bool {
        keys_distinct(image_entries(self.list))
    }

    /// An empty list that is not listing and has nothing to fetch.
    pub fn new() -> (r: ImageList)
        ensures
            image_list_inv(r@),
            r.wf(),
            r@.entries.len() == 0,
            r@.fetched == 0,
            r@.listing == false,
            r@.to_fetch == 0,
            r@.pending.len() == 0,
            fetch_progress_ok(r@),
    {
        ImageList {
            fetched: 0,
            list: image_map_new(),
            listing: false,
            to_fetch: 0,
            pending: Ghost(Seq::empty()),
        }
    }

    /// The number of images inspected since the last listing.
    pub fn fetched(&self) -> (r: u32)
        ensures
            self.wf(),
            r == self@.fetched,
    {
        proof {
            use_type_invariant(self);
        }
        self.fetched
    }

    /// Sets `fetched`; tells whether it changed.
    fn set_fetched(&mut self, value: u32) -> (changed: bool)
        ensures
            changed == (old(self)@.fetched != value),
            final(self)@ == (ImageListView { fetched: value, ..old(self)@ }),
            old(self).wf(),
            final(self).wf(),
    {
        proof {
            use_type_invariant(&*self);
        }
        if self.fetched == value {
            return false;
        }
        self.fetched = value;
        true
    }

    /// The number of images in the list, as the list model counts it.
    pub fn n_items(&self) -> (r: u32)
        ensures
            self.wf(),
            r == self@.entries.len() as u32,
    {
        proof {
            use_type_invariant(self);
        }
        image_map_len(&self.list) as u32
    }

    /// The number of images in the list.
    pub fn len(&self) -> (r: u32)
        ensures
            self.wf(),
            r == self@.entries.len() as u32,
    {
        proof {
            use_type_invariant(self);
        }
        self.n_items()
    }

    /// The image at `position`, if there is one.
    pub fn item(&self, position: u32) -> (r: Option<Image>)
        ensures
            self.wf(),
            position < self@.entries.len() ==> r is Some && r.unwrap()@ == self@.entries[position as int].1,
            position >= self@.entries.len() ==> r is None,
    {
        proof {
            use_type_invariant(self);
        }
        match image_map_get_index(&self.list, position as usize) {
            Some((_, image)) => Some(image.clone()),
            None => None,
        }
    }

    /// Whether images are being listed.
    pub fn listing(&self) -> (r: bool)
        ensures
            self.wf(),
            r == self@.listing,
    {
        proof {
            use_type_invariant(self);
        }
        self.listing
    }

    /// Sets `listing`; tells whether it changed.
    fn set_listing(&mut self, value: bool) -> (changed: bool)
        ensures
            changed == (old(self)@.listing != value),
            final(self)@ == (ImageListView { listing: value, ..old(self)@ }),
            old(self).wf(),
            final(self).wf(),
    {
        proof {
            use_type_invariant(&*self);
        }
        if self.listing == value {
            return false;
        }
        self.listing = value;
        true
    }

    /// The number of images to be inspected since the last listing.
    pub fn to_fetch(&self) -> (r: u32)
        ensures
            self.wf(),
            r == self@.to_fetch,
    {
        proof {
            use_type_invariant(self);
        }
        self.to_fetch
    }

    /// Sets `to_fetch`; tells whether it changed.
    fn set_to_fetch(&mut self, value: u32) -> (changed: bool)
        ensures
            changed == (old(self)@.to_fetch != value),
            final(self)@ == (ImageListView { to_fetch: value, ..old(self)@ }),
            old(self).wf(),
            final(self).wf(),
    {
        proof {
            use_type_invariant(&*self);
        }
        if self.to_fetch == value {
            return false;
        }
        self.to_fetch = value;
        true
    }

    /// The value of a property.
    pub fn property(&self, property: ImageListProperty) -> (r: PropertyValue)
        ensures
            self.wf(),
            r == match property {
                ImageListProperty::Fetched => PropertyValue::UInt(self@.fetched),
                ImageListProperty::Len => PropertyValue::UInt(self@.entries.len() as u32),
                ImageListProperty::Listing => PropertyValue::Boolean(self@.listing),
                ImageListProperty::ToFetch => PropertyValue::UInt(self@.to_fetch),
            },
    {
        proof {
            use_type_invariant(self);
        }
        match property {
            ImageListProperty::Fetched => PropertyValue::UInt(self.fetched()),
            ImageListProperty::Len => PropertyValue::UInt(self.len()),
            ImageListProperty::Listing => PropertyValue::Boolean(self.listing()),
            ImageListProperty::ToFetch => PropertyValue::UInt(self.to_fetch()),
        }
    }

    /// The sizes of all images, added up.
    pub fn total_size(&self) -> (r: u64)
        requires
            size_sum(self@.entries) <= u64::MAX,
        ensures
            self.wf(),
            r == size_sum(self@.entries),
    {
        proof {
            use_type_invariant(self);
        }
        let ghost e = self@.entries;
        let n = image_map_len(&self.list);
        let mut total: u64 = 0;
        let mut i: usize = 0;
        while i < n
            invariant
                e == self@.entries,
                n == e.len(),
                i <= n,
                total == size_sum(e.take(i as int)),
                size_sum(e) <= u64::MAX,
            decreases n - i,
        {
            let (_, image) = image_map_get_index(&self.list, i).unwrap();
            proof {
                lemma_prefix_step(e, i as int);
                lemma_prefix_sums(e, i + 1);
            }
            total = total + image.size;
            i += 1;
        }
        assert(e.take(n as int) =~= e);
        total
    }

    /// The sizes of all images, added up, or `None` where the sum does not fit in a `u64`.
    pub fn checked_total_size(&self) -> (r: Option<u64>)
        ensures
            self.wf(),
            size_sum(self@.entries) <= u64::MAX ==> r == Some(size_sum(self@.entries) as u64),
            size_sum(self@.entries) > u64::MAX ==> r is None,
    {
        proof {
            use_type_invariant(self);
        }
        let ghost e = self@.entries;
        let n = image_map_len(&self.list);
        let mut total: u64 = 0;
        let mut i: usize = 0;
        while i < n
            invariant
                e == self@.entries,
                self.wf(),
                n == e.len(),
                i <= n,
                total == size_sum(e.take(i as int)),
            decreases n - i,
        {
            let (_, image) = image_map_get_index(&self.list, i).unwrap();
            proof {
                lemma_prefix_step(e, i as int);
                lemma_prefix_sums(e, i + 1);
            }
            match total.checked_add(image.size) {
                Some(sum) => total = sum,
                None => return None,
            }
            i += 1;
        }
        assert(e.take(n as int) =~= e);
        Some(total)
    }

    /// The sizes of the unused images, added up, or `None` where the sum does
    /// not fit in a `u64`.
    pub fn checked_unused_size(&self) -> (r: Option<u64>)
        ensures
            self.wf(),
            unused_size_sum(self@.entries) <= u64::MAX ==> r == Some(
                unused_size_sum(self@.entries) as u64,
            ),
            unused_size_sum(self@.entries) > u64::MAX ==> r is None,
    {
        proof {
            use_type_invariant(self);
        }
        let ghost e = self@.entries;
        let n = image_map_len(&self.list);
        let mut total: u64 = 0;
        let mut i: usize = 0;
        while i < n
            invariant
                e == self@.entries,
                self.wf(),
                n == e.len(),
                i <= n,
                total == unused_size_sum(e.take(i as int)),
            decreases n - i,
        {
            let (_, image) = image_map_get_index(&self.list, i).unwrap();
            proof {
                lemma_prefix_step(e, i as int);
                lemma_prefix_sums(e, i + 1);
            }
            if image.repo_tags.len() == 0 {
                match total.checked_add(image.size) {
                    Some(sum) => total = sum,
                    None => return None,
                }
            }
            i += 1;
        }
        assert(e.take(n as int) =~= e);
        Some(total)
    }

    /// The number of images that no repository tag names.
    pub fn num_unused_images(&self) -> (r: usize)
        ensures
            self.wf(),
            r == unused_count(self@.entries),
    {
        proof {
            use_type_invariant(self);
        }
        let ghost e = self@.entries;
        let n = image_map_len(&self.list);
        let mut count: usize = 0;
        let mut i: usize = 0;
        while i < n
            invariant
                e == self@.entries,
                n == e.len(),
                i <= n,
                count == unused_count(e.take(i as int)),
            decreases n - i,
        {
            let (_, image) = image_map_get_index(&self.list, i).unwrap();
            proof {
                lemma_prefix_step(e, i as int);
                lemma_prefix_sums(e.take(i + 1), i + 1);
                assert(e.take(i + 1).take(i + 1) =~= e.take(i + 1));
            }
            if image.repo_tags.len() == 0 {
                count = count + 1;
            }
            i += 1;
        }
        assert(e.take(n as int) =~= e);
        count
    }

    /// The sizes of the images that no repository tag names, added up.
    pub fn unused_size(&self) -> (r: u64)
        requires
            unused_size_sum(self@.entries) <= u64::MAX,
        ensures
            self.wf(),
            r == unused_size_sum(self@.entries),
    {
        proof {
            use_type_invariant(self);
        }
        let ghost e = self@.entries;
        let n = image_map_len(&self.list);
        let mut total: u64 = 0;
        let mut i: usize = 0;
        while i < n
            invariant
                e == self@.entries,
                n == e.len(),
                i <= n,
                total == unused_size_sum(e.take(i as int)),
                unused_size_sum(e) <= u64::MAX,
            decreases n - i,
        {
            let (_, image) = image_map_get_index(&self.list, i).unwrap();
            proof {
                lemma_prefix_step(e, i as int);
                lemma_prefix_sums(e, i + 1);
            }
            if image.repo_tags.len() == 0 {
                total = total + image.size;
            }
            i += 1;
        }
        assert(e.take(n as int) =~= e);
        total
    }

    /// Removes the image with id `id`; tells the change to report if it was there.
    pub fn remove_image(&mut self, id: &str) -> (r: Option<ItemsChanged>)
        ensures
            image_list_inv(old(self)@) ==> image_list_inv(final(self)@),
            old(self).wf(),
            final(self).wf(),
            final(self)@ == (ImageListView {
                entries: without_key(old(self)@.entries, id@),
                ..old(self)@
            }),
            r == if has_key(old(self)@.entries, id@) {
                Some(one_removed(index_of(old(self)@.entries, id@) as u32))
            } else {
                None
            },
    {
        proof {
            use_type_invariant(&*self);
        }
        proof {
            if image_list_inv(self@) {
                law_invariant_remove(self@, id@);
            }
        }
        let ghost before = self@.entries;
        let mut list = image_map_new();
        std::mem::swap(&mut list, &mut self.list);
        let removed = image_map_shift_remove_full(&mut list, id);
        proof {
            if let Some((idx, _, _)) = removed {
                lemma_index_of(before, id@, idx as int);
                lemma_remove_keeps_distinct(before, idx as int);
            }
        }
        self.list = list;
        match removed {
            Some((idx, _, _)) => {
                Some(ItemsChanged { position: idx as u32, removed: 1, added: 0 })
            },
            None => None,
        }
    }

    /// Starts a refresh: the list is now listing. Tells whether `listing` changed.
    pub fn begin_refresh(&mut self) -> (changed: bool)
        ensures
            image_list_inv(old(self)@) ==> image_list_inv(final(self)@),
            changed == !old(self)@.listing,
            final(self)@ == (ImageListView { listing: true, ..old(self)@ }),
            old(self).wf(),
            final(self).wf(),
    {
        proof {
            use_type_invariant(&*self);
        }
        self.set_listing(true)
    }

    /// The images could not be listed: the list is no longer listing.
    /// Returns the error to report and whether `listing` changed.
    pub fn refresh_failed(&mut self) -> (r: (Error, bool))
        ensures
            image_list_inv(old(self)@) ==> image_list_inv(final(self)@),
            r.0 is List,
            r.1 == old(self)@.listing,
            final(self)@ == (ImageListView { listing: false, ..old(self)@ }),
            old(self).wf(),
            final(self).wf(),
    {
        proof {
            use_type_invariant(&*self);
        }
        let changed = self.set_listing(false);
        (Error::List, changed)
    }

    /// The images with ids `ids` were listed. The list is no longer listing;
    /// the images whose id is not among `ids` are removed, first to last; the
    /// ids that are not in the list are to be inspected, and `to_fetch` counts
    /// them while `fetched` starts again from zero.
    pub fn refresh_listed(&mut self, ids: &Vec<String>) -> (r: RefreshPlan)
        ensures
            string_views(ids@).no_duplicates() && old(self)@.entries.len() <= u32::MAX
                && r.to_inspect@.len() <= u32::MAX ==> image_list_inv(final(self)@),
            old(self).wf(),
            final(self).wf(),
            final(self)@.entries == kept(old(self)@.entries, string_views(ids@)),
            r.removed@ == removal_events(old(self)@.entries, string_views(ids@)),
            string_views(r.to_inspect@) == missing(string_views(ids@), final(self)@.entries),
            final(self)@.listing == false,
            final(self)@.fetched == 0,
            final(self)@.to_fetch == r.to_inspect@.len() as u32,
            final(self)@.pending == string_views(r.to_inspect@),
            r.to_inspect@.len() <= u32::MAX ==> fetch_progress_ok(final(self)@),
            r.notify_listing == old(self)@.listing,
            r.notify_fetched == (old(self)@.fetched != 0),
            r.notify_to_fetch == (old(self)@.to_fetch != r.to_inspect@.len() as u32),
    {
        proof {
            use_type_invariant(&*self);
        }
        let notify_listing = self.set_listing(false);
        let ghost idv = string_views(ids@);
        let ghost e = self@.entries;

        // Take out, first to last, the images that were not listed.
        let mut removed: Vec<ItemsChanged> = Vec::new();
        let mut c: usize = 0;
        let ghost mut t: int = 0;
        while c < image_map_len(&self.list)
            invariant
                self.wf(),
                idv == string_views(ids@),
                0 <= t <= e.len(),
                self@.entries == kept(e.take(t), idv) + e.skip(t),
                c == kept(e.take(t), idv).len(),
                removed@ == removal_events(e.take(t), idv),
                self@.fetched == old(self)@.fetched,
                self@.to_fetch == old(self)@.to_fetch,
                self@.listing == false,
                self@.pending == old(self)@.pending,
            decreases self@.entries.len() - c,
        {
            let ghost cur = self@.entries;
            let ghost k = kept(e.take(t), idv);
            proof {
                assert(cur[c as int] == e[t]);
                assert(e.take(t + 1).drop_last() =~= e.take(t));
                assert(e.take(t + 1).last() == e[t]);
            }
            let (key, _) = image_map_get_index(&self.list, c).unwrap();
            let key = key.clone();
            if ids_contain(ids, &key) {
                proof {
                    assert(kept(e.take(t + 1), idv) == k.push(e[t]));
                    assert(cur =~= k.push(e[t]) + e.skip(t + 1));
                    t = t + 1;
                }
                c += 1;
            } else {
                let change = self.remove_image(key.as_str());
                proof {
                    lemma_index_of(cur, key@, c as int);
                    assert(cur.remove(c as int) =~= k + e.skip(t + 1));
                    assert(kept(e.take(t + 1), idv) == k);
                    t = t + 1;
                }
                removed.push(change.unwrap());
            }
        }
        proof {
            assert(e.skip(t).len() == 0);
            assert(t == e.len());
            assert(e.take(t) =~= e);
            assert(self@.entries =~= kept(e, idv));
        }

        // Keep the listed ids that are not in the list yet.
        let ghost fin = self@.entries;
        let mut to_inspect: Vec<String> = Vec::new();
        let n = ids.len();
        let mut i: usize = 0;
        while i < n
            invariant
                n == ids.len(),
                i <= n,
                idv == string_views(ids@),
                fin == self@.entries,
                string_views(to_inspect@) == missing(idv.take(i as int), fin),
            decreases n - i,
        {
            proof {
                assert(idv.take(i + 1).drop_last() =~= idv.take(i as int));
                assert(idv.take(i + 1).last() == ids@[i as int]@);
            }
            if !image_map_contains_key(&self.list, ids[i].as_str()) {
                let ghost prev = to_inspect@;
                to_inspect.push(ids[i].clone());
                assert(string_views(to_inspect@) =~= string_views(prev).push(ids@[i as int]@));
            }
            i += 1;
        }
        assert(idv.take(n as int) =~= idv);

        let notify_fetched = self.set_fetched(0);
        let notify_to_fetch = self.set_to_fetch(to_inspect.len() as u32);
        self.pending = Ghost(string_views(to_inspect@));
        proof {
            if idv.no_duplicates() && e.len() <= u32::MAX && to_inspect@.len() <= u32::MAX {
                law_invariant_refresh(ImageListView { entries: e, ..self@ }, idv);
            }
        }
        RefreshPlan { removed, to_inspect, notify_listing, notify_fetched, notify_to_fetch }
    }

    /// The image with id `id` was inspected: it is put into the list (a new id
    /// comes last) and `fetched` counts one more. Returns the change to report,
    /// which names the last position of the list.
    pub fn image_inspected(&mut self, id: String, image: Image) -> (r: ItemsChanged)
        requires
            old(self)@.fetched < u32::MAX,
            inserted(old(self)@.entries, id@, image@).len() <= u32::MAX,
        ensures
            image_list_inv(old(self)@) && old(self)@.pending.contains(id@) ==> image_list_inv(
                final(self)@,
            ) && final(self)@.entries.len() == old(self)@.entries.len() + 1,
            old(self).wf(),
            final(self).wf(),
            final(self)@.entries == inserted(old(self)@.entries, id@, image@),
            final(self)@.pending == old(self)@.pending.remove_value(id@),
            fetch_progress_ok(old(self)@) && old(self)@.pending.contains(id@) ==> fetch_progress_ok(
                final(self)@,
            ),
            final(self)@.fetched == old(self)@.fetched + 1,
            final(self)@.listing == old(self)@.listing,
            final(self)@.to_fetch == old(self)@.to_fetch,
            r == one_added((final(self)@.entries.len() - 1) as u32),
    {
        proof {
            use_type_invariant(&*self);
        }
        proof {
            if image_list_inv(self@) && self@.pending.contains(id@) {
                law_invariant_inspected(self@, id@, image@);
            }
        }
        let ghost before = self@.entries;
        let ghost k = id@;
        let ghost v = image@;
        let mut list = image_map_new();
        std::mem::swap(&mut list, &mut self.list);
        let _ = image_map_insert(&mut list, id, image);
        proof {
            old(self)@.pending.index_of_first_ensures(k);
        }
        self.pending = Ghost(self.pending@.remove_value(k));
        proof {
            if has_key(before, k) {
                let i = choose|i: int|
                    0 <= i < before.len() && before[i].0 == k && image_entries(list)
                        == before.update(i, (k, v));
                lemma_index_of(before, k, i);
                lemma_update_keeps_distinct(before, i, v);
                assert(before.update(i, (before[i].0, v)) == before.update(i, (k, v)));
            } else {
                lemma_push_keeps_distinct(before, k, v);
            }
        }
        self.list = list;
        let position = self.len() - 1;
        let fetched = self.fetched + 1;
        self.set_fetched(fetched);
        ItemsChanged { position, removed: 0, added: 1 }
    }

    /// The image with id `id` could not be inspected: it is no longer awaited.
    /// Returns the error to report.
    pub fn inspection_failed(&mut self, id: &String) -> (r: Error)
        ensures
            image_list_inv(old(self)@) ==> image_list_inv(final(self)@),
            r matches Error::Inspect(s) && s@ == id@,
            final(self)@ == (ImageListView {
                pending: old(self)@.pending.remove_value(id@),
                ..old(self)@
            }),
            fetch_progress_ok(old(self)@) ==> fetch_progress_ok(final(self)@),
    {
        proof {
            use_type_invariant(&*self);
        }
        proof {
            if image_list_inv(self@) {
                law_invariant_failed(self@, id@);
            }
        }
        proof {
            self.pending@.index_of_first_ensures(id@);
        }
        self.pending = Ghost(self.pending@.remove_value(id@));
        Error::Inspect(id.clone())
    }

    /// Whether an image with id `id` is in the list.
    pub fn contains(&self, id: &str) -> (r: bool)
        ensures
            self.wf(),
            r == has_key(self@.entries, id@),
    {
        proof {
            use_type_invariant(self);
        }
        image_map_contains_key(&self.list, id)
    }

    /// Acts on an event about images: `remove` takes the actor's image out,
    /// `build` and `pull` start a refresh, and any other action is unknown.
    pub fn handle_event(&mut self, action: &str, actor_id: &str) -> (r: EventOutcome)
        ensures
            image_list_inv(old(self)@) ==> image_list_inv(final(self)@),
            old(self).wf(),
            final(self).wf(),
            action@ == "remove"@ ==> final(self)@ == (ImageListView {
                entries: without_key(old(self)@.entries, actor_id@),
                ..old(self)@
            }) && r == EventOutcome::Removed(
                if has_key(old(self)@.entries, actor_id@) {
                    Some(one_removed(index_of(old(self)@.entries, actor_id@) as u32))
                } else {
                    None
                },
            ),
            action@ != "remove"@ && (action@ == "build"@ || action@ == "pull"@) ==> final(self)@
                == (ImageListView { listing: true, ..old(self)@ }) && r == EventOutcome::Refresh(
                !old(self)@.listing,
            ),
            action@ != "remove"@ && action@ != "build"@ && action@ != "pull"@ ==> final(self)@
                == old(self)@ && r == EventOutcome::Unknown,
    {
        proof {
            use_type_invariant(&*self);
        }
        if str_equals(action, "remove") {
            EventOutcome::Removed(self.remove_image(actor_id))
        } else if str_equals(action, "build") || str_equals(action, "pull") {
            EventOutcome::Refresh(self.begin_refresh())
        } else {
            EventOutcome::Unknown
        }
    }
}

/// The property that a name stands for, if any.
pub fn image_list_property(name: &str) -> (r: Option<ImageListProperty>)
    ensures
        r == if name@ == "fetched"@ {
            Some(ImageListProperty::Fetched)
        } else if name@ == "len"@ {
            Some(ImageListProperty::Len)
        } else if name@ == "listing"@ {
            Some(ImageListProperty::Listing)
        } else if name@ == "to-fetch"@ {
            Some(ImageListProperty::ToFetch)
        } else {
            None
        },
{
    if str_equals(name, "fetched") {
        Some(ImageListProperty::Fetched)
    } else if str_equals(name, "len") {
        Some(ImageListProperty::Len)
    } else if str_equals(name, "listing") {
        Some(ImageListProperty::Listing)
    } else if str_equals(name, "to-fetch") {
        Some(ImageListProperty::ToFetch)
    } else {
        None
    }
}

} // verus!
