//! Properties of the library that span several operations or every input.

use vstd::prelude::*;
use crate::library::{
    FaceKey, ImageKey, LibraryView, LocalImageView, MultiLibraryView, PublishedView, SlotView,
    ActiveStateView, UNAVAILABLE_SLOT_NAME, face_key_lt, greatest_with, lemma_face_key_lt_irreflexive,
    lemma_face_key_lt_transitive, last_local_image, legacy_image_url, merged_library,
    overlay_local_images, published_url, resolved_image_url, slot_image_url, slot_name, with_local_image,
};
use crate::print_file::{
    PrintFileView, added_auto_faces, added_slots, can_add, card_slot, chosen_variant, greatest_printing, has_face,
    released, released_variant, use_count, variant_scan,
};
use crate::library::CardView;
use crate::proxy_consumer::{
    is_sha256_text, is_lower_hex, PROXY_PROFILE, ProxyIndexError, MetadataSeen, face_checker, feed_error_text,
    first_language_error, is_language_identifier, metadata_verdict, identity_of, PrintingMetaView, ProxyIndexView, base_url_verdict,
    face_image_checker, face_image_verdict, faces_with_images, image_ok, image_url_of, languages_valid,
    metadata_step, metadata_stepper, nothing_seen, ordered_by_id, printing_images_checker, printing_images_verdict,
    proxy_index_verdict, schema_url_of, sha256_of, with_languages,
};
use crate::runtime_library::slot_available_spec;
use crate::text::{has_prefix, hex_digit, hex_lower, parse_u32_spec};
use crate::library::InsertKey;
use crate::published::{
    CatalogView, face_step, face_stepper, face_urls, face_alias_step, insert_step, insert_stepper, known_face,
    known_insert, language_group, printing_step, printing_stepper, proxy_webp_url, published_index, is_proxy_webp,
    has_conflicting_webps, FaceView,
};
use crate::proxy_consumer::ProxyPrintingView;
use crate::library::PrintingView;
use crate::runtime_library::{
    LoadState, feed_state, with_catalog, with_overlay, alias_stepper, aliases_of, base_card, card_identity_verdict, dynamic_pairs, entry_result,
    entry_step, entry_stepper, group_of, loaded, same_faces, faces_meta_of, back_titles, title_texts,
};
use crate::library::AltFacesView;
use crate::proxy_consumer::FaceKind;
use crate::scan::{lemma_try_fold_invariant, lemma_try_fold_ok_step, lemma_try_fold_next, try_fold};

verus! {

/// How many overrides in `images` are for printing `k`.
pub open spec fn overrides_for(images: Seq<LocalImageView>, k: FaceKey) -> nat {
    images.filter(|e: LocalImageView| e.key == k).len()
}

proof fn lemma_with_local_image(images: Seq<LocalImageView>, added: LocalImageView, k: FaceKey)
    ensures
        k == added.key ==> overrides_for(with_local_image(images, added), k) == 1,
        k == added.key ==> last_local_image(with_local_image(images, added), k) == Some(added.url),
        k != added.key ==> overrides_for(with_local_image(images, added), k) == overrides_for(images, k),
        k != added.key ==> last_local_image(with_local_image(images, added), k) == last_local_image(images, k),
{
    let kept = images.filter(|e: LocalImageView| e.key != added.key);
    let pushed = kept.push(added);
    assert(pushed.drop_last() =~= kept);
    reveal_with_fuel(Seq::<_>::filter, 1);
    lemma_filter_push(kept, added, k);
    if k == added.key {
        lemma_filter_none(images, added.key);
    } else {
        lemma_filter_other(images, added.key, k);
        lemma_last_local_image_filter(images, added.key, k);
    }
}

proof fn lemma_filter_push(s: Seq<LocalImageView>, e: LocalImageView, k: FaceKey)
    ensures
        overrides_for(s.push(e), k) == overrides_for(s, k) + if e.key == k { 1nat } else { 0nat },
{
    reveal_with_fuel(Seq::<_>::filter, 1);
    assert(s.push(e).drop_last() =~= s);
}

/// After removing every override for `key`, none for `key` is left.
proof fn lemma_filter_none(s: Seq<LocalImageView>, key: FaceKey)
    ensures
        overrides_for(s.filter(|e: LocalImageView| e.key != key), key) == 0,
    decreases s.len(),
{
    reveal_with_fuel(Seq::<_>::filter, 1);
    if s.len() > 0 {
        lemma_filter_none(s.drop_last(), key);
        let f = s.drop_last().filter(|e: LocalImageView| e.key != key);
        if s.last().key != key {
            assert(s.filter(|e: LocalImageView| e.key != key) =~= f.push(s.last()));
            lemma_filter_push(f, s.last(), key);
        } else {
            assert(s.filter(|e: LocalImageView| e.key != key) =~= f);
        }
    }
}

/// Removing the overrides for `key` leaves the count for another printing.
proof fn lemma_filter_other(s: Seq<LocalImageView>, key: FaceKey, k: FaceKey)
    requires
        k != key,
    ensures
        overrides_for(s.filter(|e: LocalImageView| e.key != key), k) == overrides_for(s, k),
    decreases s.len(),
{
    reveal_with_fuel(Seq::<_>::filter, 1);
    if s.len() > 0 {
        lemma_filter_other(s.drop_last(), key, k);
        let f = s.drop_last().filter(|e: LocalImageView| e.key != key);
        lemma_filter_push(s.drop_last(), s.last(), k);
        if s.last().key != key {
            assert(s.filter(|e: LocalImageView| e.key != key) =~= f.push(s.last()));
            lemma_filter_push(f, s.last(), k);
        } else {
            assert(s.filter(|e: LocalImageView| e.key != key) =~= f);
        }
    }
}

/// Removing the overrides for `key` leaves the last override for another
/// printing.
proof fn lemma_last_local_image_filter(s: Seq<LocalImageView>, key: FaceKey, k: FaceKey)
    requires
        k != key,
    ensures
        last_local_image(s.filter(|e: LocalImageView| e.key != key), k) == last_local_image(s, k),
    decreases s.len(),
{
    reveal_with_fuel(Seq::<_>::filter, 1);
    if s.len() > 0 {
        lemma_last_local_image_filter(s.drop_last(), key, k);
        let f = s.drop_last().filter(|e: LocalImageView| e.key != key);
        if s.last().key != key {
            assert(s.filter(|e: LocalImageView| e.key != key) =~= f.push(s.last()));
            assert(f.push(s.last()).drop_last() =~= f);
        } else {
            assert(s.filter(|e: LocalImageView| e.key != key) =~= f);
        }
    }
}

/// Overlaying local images: for a printing that the overlay has an override
/// for, the result holds exactly one override, the overlay's last one; for
/// any other printing, the result holds the base's overrides for it and the
/// base's last one is still the one used.
pub proof fn law_overlay_local_images(base: Seq<LocalImageView>, added: Seq<LocalImageView>, k: FaceKey)
    ensures
        last_local_image(added, k) is Some ==> {
            &&& overrides_for(overlay_local_images(base, added), k) == 1
            &&& last_local_image(overlay_local_images(base, added), k) == last_local_image(added, k)
        },
        last_local_image(added, k) is None ==> {
            &&& overrides_for(overlay_local_images(base, added), k) == overrides_for(base, k)
            &&& last_local_image(overlay_local_images(base, added), k) == last_local_image(base, k)
        },
    decreases added.len(),
{
    if added.len() > 0 {
        law_overlay_local_images(base, added.drop_last(), k);
        lemma_with_local_image(overlay_local_images(base, added.drop_last()), added.last(), k);
    }
}

/// Whether some override in `images` is for printing `k`.
pub open spec fn has_override(images: Seq<LocalImageView>, k: FaceKey) -> bool {
    exists|j: int| 0 <= j < images.len() && (#[trigger] images[j]).key == k
}

/// Overrides whose printing has no override in `images`.
pub open spec fn not_overridden_by(images: Seq<LocalImageView>) -> spec_fn(LocalImageView) -> bool {
    |e: LocalImageView| !has_override(images, e.key)
}

/// Overrides for another printing than `k`.
pub open spec fn other_printing(k: FaceKey) -> spec_fn(LocalImageView) -> bool {
    |e: LocalImageView| e.key != k
}

/// The overrides of `images` that no later override in `images` replaces,
/// in their order.
pub open spec fn latest_overrides(images: Seq<LocalImageView>) -> Seq<LocalImageView>
    decreases images.len(),
{
    if images.len() == 0 {
        images
    } else if has_override(images.drop_first(), images[0].key) {
        latest_overrides(images.drop_first())
    } else {
        seq![images[0]] + latest_overrides(images.drop_first())
    }
}

proof fn lemma_filter_keeps_all(s: Seq<LocalImageView>, pred: spec_fn(LocalImageView) -> bool)
    requires
        forall|e: LocalImageView| #[trigger] pred(e),
    ensures
        s.filter(pred) == s,
    decreases s.len(),
{
    reveal_with_fuel(Seq::<_>::filter, 1);
    if s.len() > 0 {
        lemma_filter_keeps_all(s.drop_last(), pred);
        assert(s.drop_last().push(s.last()) =~= s);
    }
}

proof fn lemma_filter_of_push(s: Seq<LocalImageView>, e: LocalImageView, pred: spec_fn(LocalImageView) -> bool)
    ensures
        s.push(e).filter(pred) == if pred(e) {
            s.filter(pred).push(e)
        } else {
            s.filter(pred)
        },
{
    reveal_with_fuel(Seq::<_>::filter, 1);
    assert(s.push(e).drop_last() =~= s);
}

proof fn lemma_filter_twice(b: Seq<LocalImageView>, s: Seq<LocalImageView>, x: LocalImageView)
    ensures
        b.filter(not_overridden_by(s.push(x))) == b.filter(not_overridden_by(s)).filter(other_printing(x.key)),
    decreases b.len(),
{
    reveal_with_fuel(Seq::<_>::filter, 1);
    if b.len() > 0 {
        let l = b.last();
        let d = b.drop_last();
        lemma_filter_twice(d, s, x);
        let sx = s.push(x);
        assert(has_override(sx, l.key) <==> (has_override(s, l.key) || x.key == l.key)) by {
            if has_override(s, l.key) {
                let j = choose|j: int| 0 <= j < s.len() && (#[trigger] s[j]).key == l.key;
                assert(sx[j] == s[j]);
            }
            if x.key == l.key {
                assert(sx[s.len() as int] == x);
            }
            if has_override(sx, l.key) {
                let j = choose|j: int| 0 <= j < sx.len() && (#[trigger] sx[j]).key == l.key;
                if j < s.len() {
                    assert(s[j] == sx[j]);
                }
            }
        }
        if not_overridden_by(s)(l) {
            lemma_filter_of_push(d.filter(not_overridden_by(s)), l, other_printing(x.key));
        }
    }
}

proof fn lemma_latest_push(s: Seq<LocalImageView>, x: LocalImageView)
    ensures
        latest_overrides(s.push(x)) == latest_overrides(s).filter(other_printing(x.key)).push(x),
    decreases s.len(),
{
    reveal_with_fuel(Seq::<_>::filter, 2);
    let t = s.push(x);
    if s.len() == 0 {
        let e = t.drop_first();
        assert(e =~= Seq::<LocalImageView>::empty());
        assert(t[0] == x);
        assert(!has_override(e, t[0].key));
        assert(latest_overrides(e) == e);
        assert(latest_overrides(t) =~= seq![x]);
        assert(latest_overrides(s).filter(other_printing(x.key)) =~= Seq::<LocalImageView>::empty());
    } else {
        let a = s[0];
        let rest = s.drop_first();
        assert(t.drop_first() =~= rest.push(x));
        assert(t[0] == a);
        lemma_latest_push(rest, x);
        let rx = rest.push(x);
        assert(has_override(rx, a.key) <==> (has_override(rest, a.key) || x.key == a.key)) by {
            if has_override(rest, a.key) {
                let j = choose|j: int| 0 <= j < rest.len() && (#[trigger] rest[j]).key == a.key;
                assert(rx[j] == rest[j]);
            }
            if x.key == a.key {
                assert(rx[rest.len() as int] == x);
            }
            if has_override(rx, a.key) {
                let j = choose|j: int| 0 <= j < rx.len() && (#[trigger] rx[j]).key == a.key;
                if j < rest.len() {
                    assert(rest[j] == rx[j]);
                }
            }
        }
        let p = other_printing(x.key);
        let lr = latest_overrides(rest);
        if !has_override(rest, a.key) {
            Seq::filter_distributes_over_add(seq![a], lr, p);
            assert(seq![a].drop_last() =~= Seq::<LocalImageView>::empty());
            if x.key == a.key {
                assert(seq![a].filter(p) =~= Seq::<LocalImageView>::empty());
                assert(Seq::<LocalImageView>::empty() + lr.filter(p) =~= lr.filter(p));
            } else {
                assert(seq![a].filter(p) =~= seq![a]);
                assert((seq![a] + lr.filter(p)).push(x) =~= seq![a] + lr.filter(p).push(x));
            }
        }
    }
}

/// The overrides that overlaying leaves, as a list: the base's overrides for
/// printings that `added` does not touch, in their order, then each override
/// of `added` that no later one replaces, in their order.  Hence a printing's
/// override is the overlay's last one for it, or else the base's.
pub proof fn law_overlay_local_images_list(base: Seq<LocalImageView>, added: Seq<LocalImageView>)
    ensures
        overlay_local_images(base, added) == base.filter(not_overridden_by(added)) + latest_overrides(added),
        forall|k: FaceKey| #[trigger] last_local_image(overlay_local_images(base, added), k) == match last_local_image(added, k) {
            Some(u) => Some(u),
            None => last_local_image(base, k),
        },
    decreases added.len(),
{
    if added.len() == 0 {
        lemma_filter_keeps_all(base, not_overridden_by(added));
        assert(base + latest_overrides(added) =~= base);
    } else {
        let s = added.drop_last();
        let x = added.last();
        assert(s.push(x) =~= added);
        law_overlay_local_images_list(base, s);
        let q = not_overridden_by(s);
        let r = other_printing(x.key);
        assert((|e: LocalImageView| e.key != x.key) =~= r);
        Seq::filter_distributes_over_add(base.filter(q), latest_overrides(s), r);
        lemma_filter_twice(base, s, x);
        lemma_latest_push(s, x);
        assert((base.filter(q).filter(r) + latest_overrides(s).filter(r)).push(x)
            =~= base.filter(q).filter(r) + latest_overrides(s).filter(r).push(x));
    }
    assert forall|k: FaceKey| #[trigger] last_local_image(overlay_local_images(base, added), k) == match last_local_image(added, k) {
        Some(u) => Some(u),
        None => last_local_image(base, k),
    } by {
        law_overlay_local_images(base, added, k);
    }
}

/// The image of a printing with a local override is that override; else the
/// published image; else the URL derived from the identity.
pub proof fn law_image_precedence(image: ImageKey, library: MultiLibraryView, published: PublishedView)
    ensures
        (image matches ImageKey::Face(k) && last_local_image(library.local_images, k) is Some) ==> resolved_image_url(
            image,
            library,
            published,
        ) == last_local_image(library.local_images, image->Face_0)->0,
        !(image matches ImageKey::Face(k) && last_local_image(library.local_images, k) is Some) ==> resolved_image_url(
            image,
            library,
            published,
        ) == match published_url(published, image) {
            Some(u) => u,
            None => legacy_image_url(image),
        },
{
}

/// Extending published images with overrides: an image the overrides have
/// comes from them, any other from the index that was extended.
pub proof fn law_extend_prefers_overrides(a: PublishedView, b: PublishedView, image: ImageKey)
    ensures
        published_url(
            PublishedView {
                card_faces: a.card_faces.union_prefer_right(b.card_faces),
                inserts: a.inserts.union_prefer_right(b.inserts),
            },
            image,
        ) == match published_url(b, image) {
            Some(u) => Some(u),
            None => published_url(a, image),
        },
{
}

/// Merging a library into itself changes nothing.
pub proof fn law_merge_with_itself(a: LibraryView)
    ensures
        merged_library(a, a) == a,
{
    let m = merged_library(a, a);
    assert(m.cards =~= a.cards) by {
        assert forall|k: Seq<char>| #[trigger] m.cards.contains_key(k) implies m.cards[k] == a.cards[k] by {
            assert(a.cards[k].printings.union(a.cards[k].printings) =~= a.cards[k].printings);
        }
    }
    assert(m.faces =~= a.faces);
    assert(m.inserts =~= a.inserts);
}

/// Merging keeps everything the library had: its faces and inserts as they
/// were, and its cards with at least their printings.
pub proof fn law_merge_keeps_existing(a: LibraryView, b: LibraryView)
    ensures
        forall|k: FaceKey| #[trigger] a.faces.contains_key(k) ==> merged_library(a, b).faces.contains_key(k)
            && merged_library(a, b).faces[k] == a.faces[k],
        forall|k: crate::library::InsertKey| #[trigger] a.inserts.contains_key(k) ==> merged_library(a, b).inserts.contains_key(k)
            && merged_library(a, b).inserts[k] == a.inserts[k],
        forall|k: Seq<char>| #[trigger] a.cards.contains_key(k) ==> {
            &&& merged_library(a, b).cards.contains_key(k)
            &&& merged_library(a, b).cards[k].title == a.cards[k].title
            &&& merged_library(a, b).cards[k].faces == a.cards[k].faces
            &&& merged_library(a, b).cards[k].id == a.cards[k].id
            &&& a.cards[k].printings.subset_of(merged_library(a, b).cards[k].printings)
        },
{
}

/// Merging brings in everything the other library has: the merged library
/// has exactly the faces, inserts and cards of either; a face, insert or card
/// only the other has comes from it as it is, and every card of the other
/// keeps at least its printings.
pub proof fn law_merge_adds_new(a: LibraryView, b: LibraryView)
    ensures
        forall|k: FaceKey| #[trigger] merged_library(a, b).faces.contains_key(k) <==> (a.faces.contains_key(k)
            || b.faces.contains_key(k)),
        forall|k: FaceKey| b.faces.contains_key(k) && !a.faces.contains_key(k) ==> #[trigger] merged_library(a, b).faces[k]
            == b.faces[k],
        forall|k: crate::library::InsertKey| #[trigger] merged_library(a, b).inserts.contains_key(k) <==> (
        a.inserts.contains_key(k) || b.inserts.contains_key(k)),
        forall|k: crate::library::InsertKey| b.inserts.contains_key(k) && !a.inserts.contains_key(k)
            ==> #[trigger] merged_library(a, b).inserts[k] == b.inserts[k],
        forall|k: Seq<char>| #[trigger] merged_library(a, b).cards.contains_key(k) <==> (a.cards.contains_key(k)
            || b.cards.contains_key(k)),
        forall|k: Seq<char>| #[trigger] b.cards.contains_key(k) ==> b.cards[k].printings.subset_of(
            merged_library(a, b).cards[k].printings,
        ),
        forall|k: Seq<char>| b.cards.contains_key(k) && !a.cards.contains_key(k) ==> #[trigger] merged_library(a, b).cards[k]
            == b.cards[k],
{
}

/// An unavailable slot shows no image and the unavailable name.
pub proof fn law_unavailable_slot(slot: SlotView, state: ActiveStateView)
    requires
        !slot_available_spec(slot, state.library),
    ensures
        slot_image_url(slot, state) == Seq::<char>::empty(),
        slot_name(slot, state.library) == UNAVAILABLE_SLOT_NAME@,
{
}

/// The automatic pick among variants `1..=n` is the least used one, and the
/// first of those equally least used.
pub proof fn law_chosen_variant_least_used(auto: Map<(Seq<char>, usize), usize>, id: Seq<char>, n: nat)
    requires
        n >= 1,
    ensures
        1 <= chosen_variant(auto, id, n) <= n,
        forall|w: int| 1 <= w <= n ==> use_count(auto, id, chosen_variant(auto, id, n) as int) <= #[trigger] use_count(auto, id, w),
        forall|w: int| 1 <= w < chosen_variant(auto, id, n) ==> use_count(auto, id, chosen_variant(auto, id, n) as int) < #[trigger] use_count(auto, id, w),
{
    lemma_variant_scan(auto, id, n);
}

proof fn lemma_variant_scan(auto: Map<(Seq<char>, usize), usize>, id: Seq<char>, v: nat)
    ensures
        variant_scan(auto, id, v).0 <= usize::MAX,
        v >= 1 ==> 1 <= variant_scan(auto, id, v).1 <= v,
        v >= 1 ==> variant_scan(auto, id, v).0 == use_count(auto, id, variant_scan(auto, id, v).1 as int),
        v == 0 ==> variant_scan(auto, id, v) == (usize::MAX as nat, 1nat),
        forall|w: int| 1 <= w <= v ==> variant_scan(auto, id, v).0 <= #[trigger] use_count(auto, id, w),
        forall|w: int| 1 <= w < variant_scan(auto, id, v).1 ==> variant_scan(auto, id, v).0 < #[trigger] use_count(auto, id, w),
    decreases v,
{
    if v > 0 {
        lemma_variant_scan(auto, id, (v - 1) as nat);
        let prev = variant_scan(auto, id, (v - 1) as nat);
        if v == 1 {
            assert(use_count(auto, id, 1) <= usize::MAX);
            if use_count(auto, id, 1) < prev.0 {
            } else {
                assert(use_count(auto, id, 1) == usize::MAX);
            }
        }
        assert forall|w: int| 1 <= w <= v implies variant_scan(auto, id, v).0 <= #[trigger] use_count(auto, id, w) by {
            if w < v {
                assert(prev.0 <= use_count(auto, id, w));
            }
        }
    }
}

/// Whether printing `x` passes the face filter `face`.
pub open spec fn face_fits(face: Option<Option<usize>>, x: FaceKey) -> bool {
    face matches Some(f) ==> x.face == f
}

/// A finite set of printings with one that passes the filter has a greatest
/// one that passes it.
proof fn lemma_greatest_exists(s: Set<FaceKey>, face: Option<Option<usize>>)
    requires
        s.finite(),
        exists|x: FaceKey| s.contains(x) && #[trigger] face_fits(face, x),
    ensures
        exists|x: FaceKey| #[trigger] greatest_with(s, face, x),
    decreases s.len(),
{
    let x0 = choose|x: FaceKey| s.contains(x) && #[trigger] face_fits(face, x);
    let r = s.remove(x0);
    lemma_face_key_lt_irreflexive(x0);
    if exists|x: FaceKey| r.contains(x) && #[trigger] face_fits(face, x) {
        lemma_greatest_exists(r, face);
        let y = choose|y: FaceKey| #[trigger] greatest_with(r, face, y);
        if face_key_lt(y, x0) {
            assert forall|z: FaceKey| s.contains(z) && face_fits(face, z) implies !face_key_lt(x0, z) by {
                if z != x0 {
                    assert(r.contains(z));
                    if face_key_lt(x0, z) {
                        lemma_face_key_lt_transitive(y, x0, z);
                    }
                }
            }
            assert(greatest_with(s, face, x0));
        } else {
            assert forall|z: FaceKey| s.contains(z) && face_fits(face, z) implies !face_key_lt(y, z) by {
                if z != x0 {
                    assert(r.contains(z));
                }
            }
            assert(greatest_with(s, face, y));
        }
    } else {
        assert forall|z: FaceKey| s.contains(z) && face_fits(face, z) implies !face_key_lt(x0, z) by {
            if z != x0 {
                assert(r.contains(z) && face_fits(face, z));
            }
        }
        assert(greatest_with(s, face, x0));
    }
}

/// Adding a card with variants and then removing the slot that this added
/// (the last one) gives the print list back, and gives the use back: every
/// variant's use count is what it was before (a missing count reads as 0),
/// so the next addition picks the same variant again.  The library must know
/// every printing of the card as a face of that card.
pub proof fn law_release_undoes_pick(file: PrintFileView, meta: CardView, library: MultiLibraryView, w: int)
    requires
        meta.faces is Variants,
        meta.printings.finite(),
        can_add(file, meta),
        forall|p: FaceKey| #[trigger] meta.printings.contains(p) && p.face is Some ==> {
            &&& library.libraries.contains_key(p.group)
            &&& library.libraries[p.group].faces.contains_key(p)
            &&& library.libraries[p.group].cards.contains_key(library.libraries[p.group].faces[p].card_id)
            &&& library.libraries[p.group].cards[library.libraries[p.group].faces[p].card_id].id == meta.id
            &&& library.libraries[p.group].cards[library.libraries[p.group].faces[p].card_id].faces is Variants
        },
    ensures
        ({
            let slots = file.slots + added_slots(file, meta);
            let last = slots.len() - 1;
            &&& slots.remove(last) == file.slots
            &&& use_count(
                released(
                    added_auto_faces(file, meta),
                    match slots[last] {
                        SlotView::Card { printing, .. } => released_variant(slots[last], printing.group, library),
                        SlotView::Insert { .. } => None,
                    },
                ),
                meta.id,
                w,
            ) == use_count(file.auto_faces, meta.id, w)
        }),
{
    let n = meta.faces->Variants_0;
    let v = chosen_variant(file.auto_faces, meta.id, n as nat);
    let face = Some(Some(v as usize));
    assert(has_face(meta, v as usize));
    let x = choose|x: FaceKey| #[trigger] meta.printings.contains(x) && x.face == Some(v as usize);
    assert(face_fits(face, x));
    lemma_greatest_exists(meta.printings, face);
    assert(greatest_with(meta.printings, face, greatest_printing(meta.printings, face)));
    let p = greatest_printing(meta.printings, face);
    assert(meta.printings.contains(p) && p.face == Some(v as usize));
    let slots = file.slots + added_slots(file, meta);
    let last = slots.len() - 1;
    assert(slots[last] == card_slot(meta, face));
    assert(slots.remove(last) =~= file.slots);
    assert(released_variant(slots[last], p.group, library) == Some((meta.id, v as usize)));
}

/// The lowercase hexadecimal form of a 32-byte digest is what `is_sha256`
/// accepts.
pub proof fn law_digest_text_is_sha256(bytes: Seq<u8>)
    requires
        bytes.len() == 32,
    ensures
        is_sha256_text(hex_lower(bytes)),
{
    lemma_hex_lower_is_hex(bytes);
}

proof fn lemma_hex_lower_is_hex(bytes: Seq<u8>)
    ensures
        hex_lower(bytes).len() == 2 * bytes.len(),
        forall|i: int| 0 <= i < hex_lower(bytes).len() ==> is_lower_hex(#[trigger] hex_lower(bytes)[i]),
    decreases bytes.len(),
{
    if bytes.len() > 0 {
        lemma_hex_lower_is_hex(bytes.drop_last());
        let hi = (bytes.last() / 16) as nat;
        let lo = (bytes.last() % 16) as nat;
        lemma_hex_digit(hi);
        lemma_hex_digit(lo);
        let prev = hex_lower(bytes.drop_last());
        assert forall|i: int| 0 <= i < hex_lower(bytes).len() implies is_lower_hex(#[trigger] hex_lower(bytes)[i]) by {
            if i < prev.len() {
                assert(hex_lower(bytes)[i] == prev[i]);
            }
        }
    }
}

proof fn lemma_hex_digit(d: nat)
    requires
        d < 16,
    ensures
        is_lower_hex(hex_digit(d)),
{
    if d < 10 {
        assert(crate::text::digit_char(d) == ((d + 48) as u32) as char);
    }
}

/// Every value of the map is an HTTPS URL.
pub open spec fn all_https<K>(m: Map<K, Seq<char>>) -> bool {
    forall|k: K| #[trigger] m.contains_key(k) ==> has_prefix(m[k], "https://"@)
}

/// Every key of the map is a face printing of the library.
pub open spec fn all_known_faces(m: Map<FaceKey, Seq<char>>, library: MultiLibraryView) -> bool {
    forall|k: FaceKey| #[trigger] m.contains_key(k) ==> known_face(library, k)
}

/// Every key of the map is an insert of the library.
pub open spec fn all_known_inserts(m: Map<InsertKey, Seq<char>>, library: MultiLibraryView) -> bool {
    forall|k: InsertKey| #[trigger] m.contains_key(k) ==> known_insert(library, k)
}

/// The general catalogue only yields HTTPS images, and only for printings and
/// inserts that the library knows.
pub proof fn law_published_images_known_and_https(catalog: CatalogView, library: MultiLibraryView)
    requires
        published_index(catalog, library) is Ok,
    ensures
        all_https(published_index(catalog, library)->Ok_0.card_faces),
        all_https(published_index(catalog, library)->Ok_0.inserts),
        all_known_faces(published_index(catalog, library)->Ok_0.card_faces, library),
        all_known_inserts(published_index(catalog, library)->Ok_0.inserts, library),
{
    let faces_inv = |m: Map<Seq<char>, Seq<char>>| all_https(m);
    assert forall|m: Map<Seq<char>, Seq<char>>, i: int|
        0 <= i < catalog.faces.len() && faces_inv(m) && (#[trigger] face_stepper()(m, catalog.faces[i])) is Ok
            implies faces_inv(face_stepper()(m, catalog.faces[i])->Ok_0) by {
        let f = catalog.faces[i];
        let m2 = face_step(m, f)->Ok_0;
        assert forall|k: Seq<char>| #[trigger] m2.contains_key(k) implies has_prefix(m2[k], "https://"@) by {
            if !m.contains_key(k) {
                assert(proxy_webp_url(f) is Some);
            }
        }
    }
    lemma_try_fold_invariant(catalog.faces, Map::empty(), face_stepper(), faces_inv);
    let urls = face_urls(catalog.faces)->Ok_0;

    let cf_inv = |m: Map<FaceKey, Seq<char>>| all_https(m) && all_known_faces(m, library);
    assert forall|m: Map<FaceKey, Seq<char>>, i: int|
        0 <= i < catalog.printings.len() && cf_inv(m) && (#[trigger] printing_stepper(urls, library)(m, catalog.printings[i])) is Ok
            implies cf_inv(printing_stepper(urls, library)(m, catalog.printings[i])->Ok_0) by {
        let p = catalog.printings[i];
        let m2 = printing_step(m, p, urls, library)->Ok_0;
        if p.publisher == "nsg"@ && p.art_kind == "official"@ && p.state == "released"@ {
            if let Some(ext) = p.external_printing_id {
                if let Some(id) = parse_u32_spec(ext) {
                    if let Some(group) = language_group(p.language) {
                        let a = face_alias_step(m, Some(p.front_face_id), p.front_index, id, group, urls, library);
                        lemma_face_alias_step(m, Some(p.front_face_id), p.front_index, id, group, urls, library);
                        if a is Ok {
                            lemma_face_alias_step(a->Ok_0, p.back_face_id, p.back_index, id, group, urls, library);
                        }
                    }
                }
            }
        }
    }
    lemma_try_fold_invariant(catalog.printings, Map::empty(), printing_stepper(urls, library), cf_inv);

    let ins_inv = |m: Map<InsertKey, Seq<char>>| all_https(m) && all_known_inserts(m, library);
    assert forall|m: Map<InsertKey, Seq<char>>, i: int|
        0 <= i < catalog.inserts.len() && ins_inv(m) && (#[trigger] insert_stepper(urls, library)(m, catalog.inserts[i])) is Ok
            implies ins_inv(insert_stepper(urls, library)(m, catalog.inserts[i])->Ok_0) by {
        let x = catalog.inserts[i];
        let m2 = insert_step(m, x, urls, library)->Ok_0;
        assert forall|k: InsertKey| #[trigger] m2.contains_key(k) implies has_prefix(m2[k], "https://"@)
            && known_insert(library, k) by {
            if !m.contains_key(k) || m2[k] != m[k] {
                assert(urls.contains_key(x.front_face_id));
            }
        }
    }
    lemma_try_fold_invariant(catalog.inserts, Map::empty(), insert_stepper(urls, library), ins_inv);
}

/// A face of a printing added to an HTTPS map of known faces keeps it so,
/// when the face URLs are HTTPS.
proof fn lemma_face_alias_step(
    acc: Map<FaceKey, Seq<char>>,
    face_id: Option<Seq<char>>,
    index: Option<usize>,
    id: u32,
    group: Seq<char>,
    urls: Map<Seq<char>, Seq<char>>,
    library: MultiLibraryView,
)
    requires
        all_https(urls),
        all_https(acc),
        all_known_faces(acc, library),
    ensures
        face_alias_step(acc, face_id, index, id, group, urls, library) matches Ok(m) ==> all_https(m)
            && all_known_faces(m, library),
{
    if let Some(fid) = face_id {
        if urls.contains_key(fid) {
            let key = FaceKey { id, face: index, group };
            if known_face(library, key) {
                let m = acc.insert(key, urls[fid]);
                assert forall|k: FaceKey| #[trigger] m.contains_key(k) implies has_prefix(m[k], "https://"@)
                    && known_face(library, k) by {
                    if k != key {
                        assert(acc.contains_key(k));
                    }
                }
            }
        }
    }
}

proof fn lemma_seen_ids(items: Seq<(PrintingMetaView, bool)>, j: int)
    requires
        try_fold(items, nothing_seen(), metadata_stepper()) is Ok,
        0 <= j <= items.len(),
    ensures
        try_fold(items.subrange(0, j), nothing_seen(), metadata_stepper()) is Ok,
        forall|i: int|
            0 <= i < j ==> (#[trigger] try_fold(items.subrange(0, j), nothing_seen(), metadata_stepper())->Ok_0.ids.contains(
                items[i].0.id,
            )),
    decreases j,
{
    if j == 0 {
        assert(items.subrange(0, 0).len() == 0);
    } else {
        lemma_seen_ids(items, j - 1);
        lemma_try_fold_ok_step(items, nothing_seen(), metadata_stepper(), j - 1);
        lemma_try_fold_next(items, nothing_seen(), metadata_stepper(), j - 1);
        let before = try_fold(items.subrange(0, j - 1), nothing_seen(), metadata_stepper())->Ok_0;
        let after = try_fold(items.subrange(0, j), nothing_seen(), metadata_stepper())->Ok_0;
        assert(after.ids == before.ids.insert(items[j - 1].0.id));
        assert forall|i: int| 0 <= i < j implies (#[trigger] try_fold(items.subrange(0, j), nothing_seen(), metadata_stepper())->Ok_0.ids.contains(
            items[i].0.id,
        )) by {
            if i < j - 1 {
                assert(before.ids.contains(items[i].0.id));
            }
        }
    }
}

/// A scan whose steps never fail with `e` does not fail with `e`.
proof fn lemma_try_fold_avoids<A, S>(
    items: Seq<A>,
    init: S,
    step: spec_fn(S, A) -> Result<S, ProxyIndexError>,
    e: ProxyIndexError,
)
    requires
        forall|s: S, i: int| 0 <= i < items.len() ==> #[trigger] step(s, items[i]) != Err::<S, ProxyIndexError>(e),
    ensures
        try_fold(items, init, step) != Err::<S, ProxyIndexError>(e),
    decreases items.len(),
{
    if items.len() > 0 {
        let rest = items.drop_last();
        assert forall|s: S, i: int| 0 <= i < rest.len() implies #[trigger] step(s, rest[i]) != Err::<S, ProxyIndexError>(e) by {
            assert(rest[i] == items[i]);
        }
        lemma_try_fold_avoids(rest, init, step, e);
        assert(items.last() == items[items.len() - 1]);
    }
}

/// With no language error among the printings, every language is valid.
proof fn lemma_no_language_error(printings: Seq<ProxyPrintingView>)
    requires
        first_language_error(printings) is None,
    ensures
        forall|i: int| 0 <= i < printings.len() ==> is_language_identifier(#[trigger] printings[i].metadata.language),
    decreases printings.len(),
{
    if printings.len() > 0 {
        lemma_no_language_error(printings.drop_first());
        assert forall|i: int| 0 <= i < printings.len() implies is_language_identifier(#[trigger] printings[i].metadata.language) by {
            if i > 0 {
                assert(printings[i] == printings.drop_first()[i - 1]);
            }
        }
    }
}

/// A feed refused for a language has a language that the parser refuses, so
/// the message for it carries the parser's reason.
pub proof fn law_language_refusal_has_reason(printings: Seq<ProxyPrintingView>, base_url: Seq<char>)
    requires
        metadata_verdict(printings, languages_valid(printings)) == Err::<(), ProxyIndexError>(
            ProxyIndexError::InvalidLanguage,
        ),
    ensures
        first_language_error(printings) is Some,
        feed_error_text(ProxyIndexError::InvalidLanguage, base_url, printings) == "invalid metadata language: "@
            + first_language_error(printings)->Some_0,
{
    if first_language_error(printings) is None {
        lemma_no_language_error(printings);
        let items = with_languages(printings, languages_valid(printings));
        let e = ProxyIndexError::InvalidLanguage;
        assert forall|m: PrintingMetaView, f: (Set<Seq<char>>, Set<(u32, Seq<char>, Option<u16>)>), i: int|
            0 <= i < m.faces.len() implies #[trigger] face_checker(m)(f, m.faces[i]) != Err::<
            (Set<Seq<char>>, Set<(u32, Seq<char>, Option<u16>)>),
            ProxyIndexError,
        >(e) by {}
        assert forall|s: MetadataSeen, i: int| 0 <= i < items.len() implies #[trigger] metadata_stepper()(s, items[i])
            != Err::<MetadataSeen, ProxyIndexError>(e) by {
            let m = items[i].0;
            assert(items[i].1);
            lemma_try_fold_avoids(m.faces, (Set::empty(), s.aliases), face_checker(m), e);
        }
        lemma_try_fold_avoids(items, nothing_seen(), metadata_stepper(), e);
    }
}

/// A failing scan fails at some item: the items before it pass and its step
/// gives the scan's error.
proof fn lemma_try_fold_fails_at<A, S, E>(items: Seq<A>, init: S, step: spec_fn(S, A) -> Result<S, E>)
    requires
        try_fold(items, init, step) is Err,
    ensures
        exists|j: int|
            0 <= j < items.len() && (#[trigger] try_fold(items.subrange(0, j), init, step)) is Ok && step(
                try_fold(items.subrange(0, j), init, step)->Ok_0,
                items[j],
            ) == try_fold(items, init, step),
    decreases items.len(),
{
    let n = items.len() - 1;
    let rest = items.drop_last();
    if try_fold(rest, init, step) is Err {
        lemma_try_fold_fails_at(rest, init, step);
        let j = choose|j: int|
            0 <= j < rest.len() && (#[trigger] try_fold(rest.subrange(0, j), init, step)) is Ok && step(
                try_fold(rest.subrange(0, j), init, step)->Ok_0,
                rest[j],
            ) == try_fold(rest, init, step);
        assert(rest.subrange(0, j) =~= items.subrange(0, j));
        assert(rest[j] == items[j]);
        assert(try_fold(items.subrange(0, j), init, step) is Ok);
    } else {
        assert(rest =~= items.subrange(0, n));
        assert(items.last() == items[n]);
        assert(try_fold(items.subrange(0, n), init, step) is Ok);
    }
}

/// The card and language that a printing's description is compared under.
pub open spec fn card_and_language(m: PrintingMetaView) -> (Seq<char>, Seq<char>) {
    (m.card_id, m.language)
}

/// The metadata checks report conflicting card metadata only for two
/// printings of the same card in the same language with different
/// descriptions (title, upstream identity, face kind or face titles): a card
/// may read differently in another language.
pub proof fn law_conflict_needs_same_card_and_language(printings: Seq<ProxyPrintingView>, languages_ok: Seq<bool>)
    requires
        languages_ok.len() == printings.len(),
        metadata_verdict(printings, languages_ok) == Err::<(), ProxyIndexError>(ProxyIndexError::ConflictingCardMetadata),
    ensures
        exists|i: int, j: int|
            0 <= i < printings.len() && 0 <= j < printings.len() && i != j
                && (#[trigger] printings[i]).metadata.card_id == (#[trigger] printings[j]).metadata.card_id
                && printings[i].metadata.language == printings[j].metadata.language
                && identity_of(printings[i].metadata) != identity_of(printings[j].metadata),
{
    let items = with_languages(printings, languages_ok);
    let step = metadata_stepper();
    let e = ProxyIndexError::ConflictingCardMetadata;
    lemma_try_fold_fails_at(items, nothing_seen(), step);
    let j = choose|j: int|
        0 <= j < items.len() && (#[trigger] try_fold(items.subrange(0, j), nothing_seen(), step)) is Ok && step(
            try_fold(items.subrange(0, j), nothing_seen(), step)->Ok_0,
            items[j],
        ) == try_fold(items, nothing_seen(), step);
    let pre = items.subrange(0, j);
    let inv = |t: MetadataSeen|
        forall|c: (Seq<char>, Seq<char>)| #[trigger] t.cards.contains_key(c) ==> exists|i: int|
            0 <= i < items.len() && card_and_language(items[i].0) == c && identity_of(items[i].0) == t.cards[c];
    assert forall|t: MetadataSeen, i: int| 0 <= i < pre.len() && inv(t) && (#[trigger] step(t, pre[i])) is Ok implies inv(
        step(t, pre[i])->Ok_0,
    ) by {
        assert(pre[i] == items[i]);
        let m = items[i].0;
        let t2 = step(t, pre[i])->Ok_0;
        assert(t2.cards == t.cards.insert(card_and_language(m), identity_of(m)));
        assert forall|c: (Seq<char>, Seq<char>)| #[trigger] t2.cards.contains_key(c) implies exists|k: int|
            0 <= k < items.len() && card_and_language(items[k].0) == c && identity_of(items[k].0) == t2.cards[c] by {
            if c == card_and_language(m) {
                assert(card_and_language(items[i].0) == c);
            } else {
                assert(t.cards.contains_key(c));
            }
        }
    }
    assert(inv(nothing_seen()));
    lemma_try_fold_invariant(pre, nothing_seen(), step, inv);
    let seen = try_fold(pre, nothing_seen(), step)->Ok_0;
    let m = items[j].0;
    assert forall|f: (Set<Seq<char>>, Set<(u32, Seq<char>, Option<u16>)>), i: int|
        0 <= i < m.faces.len() implies #[trigger] face_checker(m)(f, m.faces[i]) != Err::<
        (Set<Seq<char>>, Set<(u32, Seq<char>, Option<u16>)>),
        ProxyIndexError,
    >(e) by {}
    lemma_try_fold_avoids(m.faces, (Set::empty(), seen.aliases), face_checker(m), e);
    let key = card_and_language(m);
    assert(seen.cards.contains_key(key) && seen.cards[key] != identity_of(m));
    let i = choose|i: int| 0 <= i < items.len() && card_and_language(items[i].0) == key && identity_of(items[i].0) == seen.cards[key];
    assert(items[i].0 == printings[i].metadata);
    assert(items[j].0 == printings[j].metadata);
    assert(printings[i].metadata.card_id == printings[j].metadata.card_id);
}

/// A property that the step at item `j` establishes and every later
/// successful step keeps holds of a successful scan's result.
proof fn lemma_try_fold_keeps<A, S, E>(
    items: Seq<A>,
    init: S,
    step: spec_fn(S, A) -> Result<S, E>,
    prop: spec_fn(S) -> bool,
    j: int,
)
    requires
        0 <= j < items.len(),
        try_fold(items, init, step) is Ok,
        try_fold(items.subrange(0, j), init, step) is Ok,
        step(try_fold(items.subrange(0, j), init, step)->Ok_0, items[j]) is Ok ==> prop(
            step(try_fold(items.subrange(0, j), init, step)->Ok_0, items[j])->Ok_0,
        ),
        forall|t: S, i: int| j < i < items.len() && prop(t) && (#[trigger] step(t, items[i])) is Ok ==> prop(
            step(t, items[i])->Ok_0,
        ),
    ensures
        prop(try_fold(items, init, step)->Ok_0),
    decreases items.len(),
{
    let n = items.len() - 1;
    let rest = items.drop_last();
    assert(items.last() == items[n]);
    if j == n {
        assert(rest =~= items.subrange(0, j));
    } else {
        assert(rest.subrange(0, j) =~= items.subrange(0, j));
        assert(rest[j] == items[j]);
        assert forall|t: S, i: int| j < i < rest.len() && prop(t) && (#[trigger] step(t, rest[i])) is Ok implies prop(
            step(t, rest[i])->Ok_0,
        ) by {
            assert(rest[i] == items[i]);
        }
        lemma_try_fold_keeps(rest, init, step, prop, j);
    }
}

/// Once the URL map from face identity to proxy WebP has an entry for `fid`,
/// later faces keep it.
proof fn lemma_face_urls_keep(faces: Seq<FaceView>, fid: Seq<char>, u: Seq<char>, pos: int, a: int)
    requires
        face_urls(faces) is Ok,
        0 <= pos < faces.len(),
        faces[pos].id == fid,
        0 <= a < faces[pos].assets.len(),
        is_proxy_webp(faces[pos].assets[a]),
        faces[pos].assets[a].url == u,
    ensures
        face_urls(faces)->Ok_0.contains_key(fid),
        face_urls(faces)->Ok_0[fid] == u,
{
    let step = face_stepper();
    let prop = |m: Map<Seq<char>, Seq<char>>| m.contains_key(fid) && m[fid] == u;
    lemma_try_fold_ok_step(faces, Map::empty(), step, pos);
    let f = faces[pos];
    assert(!has_conflicting_webps(f)) by {
        let s0 = try_fold(faces.subrange(0, pos), Map::empty(), step)->Ok_0;
        assert(face_step(s0, f) is Ok);
    }
    assert(proxy_webp_url(f) == Some(u)) by {
        assert(0 <= a < f.assets.len() && is_proxy_webp(f.assets[a]));
        let c = choose|i: int| 0 <= i < f.assets.len() && #[trigger] is_proxy_webp(f.assets[i]);
        if f.assets[c].url != u {
            assert(has_conflicting_webps(f));
        }
    }
    assert forall|t: Map<Seq<char>, Seq<char>>, i: int| pos < i < faces.len() && prop(t) && (#[trigger] step(t, faces[i])) is Ok
        implies prop(step(t, faces[i])->Ok_0) by {}
    lemma_try_fold_keeps(faces, Map::empty(), step, prop, pos);
}

/// A face's step keeps an entry the image map already has.
proof fn lemma_face_alias_keeps(
    acc: Map<FaceKey, Seq<char>>,
    face_id: Option<Seq<char>>,
    index: Option<usize>,
    id: u32,
    group: Seq<char>,
    urls: Map<Seq<char>, Seq<char>>,
    library: MultiLibraryView,
    key: FaceKey,
    u: Seq<char>,
)
    requires
        acc.contains_key(key),
        acc[key] == u,
        face_alias_step(acc, face_id, index, id, group, urls, library) is Ok,
    ensures
        face_alias_step(acc, face_id, index, id, group, urls, library)->Ok_0.contains_key(key),
        face_alias_step(acc, face_id, index, id, group, urls, library)->Ok_0[key] == u,
{
}

/// The published index maps a face of a released official NSG printing of a
/// mapped language to the face's proxy WebP, wherever the library knows that
/// face printing: the front face (`back` false) under the front face index,
/// the back face (`back` true) under the back face index.
pub proof fn law_published_printing_faces(
    catalog: CatalogView,
    library: MultiLibraryView,
    j: int,
    back: bool,
    id: u32,
    group: Seq<char>,
    pos: int,
    a: int,
)
    requires
        published_index(catalog, library) is Ok,
        0 <= j < catalog.printings.len(),
        catalog.printings[j].publisher == "nsg"@,
        catalog.printings[j].art_kind == "official"@,
        catalog.printings[j].state == "released"@,
        catalog.printings[j].external_printing_id is Some,
        parse_u32_spec(catalog.printings[j].external_printing_id->Some_0) == Some(id),
        language_group(catalog.printings[j].language) == Some(group),
        0 <= pos < catalog.faces.len(),
        (if back {
            catalog.printings[j].back_face_id
        } else {
            Some(catalog.printings[j].front_face_id)
        }) == Some(catalog.faces[pos].id),
        0 <= a < catalog.faces[pos].assets.len(),
        is_proxy_webp(catalog.faces[pos].assets[a]),
        library.libraries.contains_key(group),
        library.libraries[group].faces.contains_key(
            FaceKey {
                id,
                face: if back {
                    catalog.printings[j].back_index
                } else {
                    catalog.printings[j].front_index
                },
                group,
            },
        ),
    ensures
        ({
            let key = FaceKey {
                id,
                face: if back {
                    catalog.printings[j].back_index
                } else {
                    catalog.printings[j].front_index
                },
                group,
            };
            &&& published_index(catalog, library)->Ok_0.card_faces.contains_key(key)
            &&& published_index(catalog, library)->Ok_0.card_faces[key] == catalog.faces[pos].assets[a].url
        }),
{
    let p = catalog.printings[j];
    let fid = catalog.faces[pos].id;
    let u = catalog.faces[pos].assets[a].url;
    let index = if back {
        p.back_index
    } else {
        p.front_index
    };
    let key = FaceKey { id, face: index, group };
    let urls = face_urls(catalog.faces)->Ok_0;
    lemma_face_urls_keep(catalog.faces, fid, u, pos, a);
    let step = printing_stepper(urls, library);
    let prop = |m: Map<FaceKey, Seq<char>>| m.contains_key(key) && m[key] == u;
    assert(try_fold(catalog.printings, Map::empty(), step) is Ok);
    lemma_try_fold_ok_step(catalog.printings, Map::empty(), step, j);
    let s0 = try_fold(catalog.printings.subrange(0, j), Map::empty(), step)->Ok_0;
    assert(known_face(library, key));
    let front = face_alias_step(s0, Some(p.front_face_id), p.front_index, id, group, urls, library);
    assert(front is Ok);
    if back {
        assert(prop(printing_step(s0, p, urls, library)->Ok_0));
    } else {
        assert(prop(front->Ok_0));
        lemma_face_alias_keeps(front->Ok_0, p.back_face_id, p.back_index, id, group, urls, library, key, u);
        assert(prop(printing_step(s0, p, urls, library)->Ok_0));
    }
    assert forall|t: Map<FaceKey, Seq<char>>, i: int| j < i < catalog.printings.len() && prop(t) && (#[trigger] step(
        t,
        catalog.printings[i],
    )) is Ok implies prop(step(t, catalog.printings[i])->Ok_0) by {
        let q = catalog.printings[i];
        if q.publisher == "nsg"@ && q.art_kind == "official"@ && q.state == "released"@ {
            if let Some(ext) = q.external_printing_id {
                if let Some(qid) = parse_u32_spec(ext) {
                    if let Some(qg) = language_group(q.language) {
                        let f1 = face_alias_step(t, Some(q.front_face_id), q.front_index, qid, qg, urls, library);
                        lemma_face_alias_keeps(t, Some(q.front_face_id), q.front_index, qid, qg, urls, library, key, u);
                        lemma_face_alias_keeps(f1->Ok_0, q.back_face_id, q.back_index, qid, qg, urls, library, key, u);
                    }
                }
            }
        }
    }
    lemma_try_fold_keeps(catalog.printings, Map::empty(), step, prop, j);
}

/// An accepted feed keeps its contract: its base URL was accepted, it is
/// schema 1 of the public proxy profile with the schema URL below the base,
/// its revision is the SHA-256 digest of its unsigned serialization, its
/// printings are ordered by pipeline identity and no identity occurs twice,
/// and every printing has at least one face and, for each face in order, that
/// face's full-size proxy WebP at the immutable public URL of its digest.
pub proof fn law_accepted_feed(index: ProxyIndexView, base_url: Seq<char>, unsigned_json: Seq<u8>)
    requires
        proxy_index_verdict(index, base_url, unsigned_json) is Ok,
    ensures
        base_url_verdict(base_url) is Ok,
        index.schema == 1,
        index.profile == PROXY_PROFILE@,
        index.visibility == "public"@,
        index.schema_url == schema_url_of(base_url_verdict(base_url)->Ok_0),
        index.revision == hex_lower(sha256_of(unsigned_json)),
        ordered_by_id(index.printings),
        forall|i: int, j: int|
            0 <= i < j < index.printings.len() ==> (#[trigger] index.printings[i]).metadata.id
                != (#[trigger] index.printings[j]).metadata.id,
        forall|i: int|
            0 <= i < index.printings.len() ==> (#[trigger] index.printings[i]).metadata.faces.len() > 0
                && index.printings[i].images.len() == index.printings[i].metadata.faces.len(),
        forall|i: int, j: int|
            #![trigger index.printings[i].images[j]]
            0 <= i < index.printings.len() && 0 <= j < index.printings[i].metadata.faces.len() ==> {
                &&& index.printings[i].images[j].face_id == index.printings[i].metadata.faces[j].id
                &&& image_ok(index.printings[i].images[j])
                &&& index.printings[i].images[j].url == image_url_of(
                    base_url_verdict(base_url)->Ok_0,
                    index.printings[i].images[j].sha256,
                )
            },
{
    let base = base_url_verdict(base_url)->Ok_0;
    let langs = languages_valid(index.printings);
    let items = with_languages(index.printings, langs);
    crate::proxy_consumer::lemma_accepted_printings_have_faces(index, base_url, unsigned_json);
    assert forall|i: int, j: int|
        0 <= i < j < index.printings.len() implies (#[trigger] index.printings[i]).metadata.id
            != (#[trigger] index.printings[j]).metadata.id by {
        lemma_seen_ids(items, j);
        lemma_try_fold_ok_step(items, nothing_seen(), metadata_stepper(), j);
        assert(items[i] == (index.printings[i].metadata, langs[i]));
        assert(items[j] == (index.printings[j].metadata, langs[j]));
        let seen = try_fold(items.subrange(0, j), nothing_seen(), metadata_stepper())->Ok_0;
        assert(seen.ids.contains(items[i].0.id));
        assert(metadata_step(seen, items[j]) is Ok);
        assert(!seen.ids.contains(items[j].0.id));
    }
    assert forall|i: int| 0 <= i < index.printings.len() implies (#[trigger] index.printings[i]).metadata.faces.len() > 0
        && index.printings[i].images.len() == index.printings[i].metadata.faces.len() by {
        lemma_try_fold_ok_step(index.printings, (), printing_images_checker(base), i);
        assert(index.printings.subrange(0, i).len() == i);
    }
    assert forall|i: int, j: int|
        #![trigger index.printings[i].images[j]]
        0 <= i < index.printings.len() && 0 <= j < index.printings[i].metadata.faces.len() implies {
            &&& index.printings[i].images[j].face_id == index.printings[i].metadata.faces[j].id
            &&& image_ok(index.printings[i].images[j])
            &&& index.printings[i].images[j].url == image_url_of(base, index.printings[i].images[j].sha256)
        } by {
        let p = index.printings[i];
        lemma_try_fold_ok_step(index.printings, (), printing_images_checker(base), i);
        assert(printing_images_verdict(p, base) is Ok);
        lemma_try_fold_ok_step(faces_with_images(p), (), face_image_checker(base), j);
        assert(faces_with_images(p)[j] == (p.metadata.faces[j], p.images[j]));
        assert(face_image_verdict(p.metadata.faces[j], p.images[j], base) is Ok);
    }
}

/// `y` keeps what `x` had: the same inserts, every face (for the same card)
/// and every card (with the same title, faces and identity, and at least its
/// printings).
pub open spec fn group_kept(x: LibraryView, y: LibraryView) -> bool {
    &&& y.inserts == x.inserts
    &&& forall|k: FaceKey| #[trigger] x.faces.contains_key(k) ==> y.faces.contains_key(k) && y.faces[k].card_id
        == x.faces[k].card_id
    &&& forall|c: Seq<char>| #[trigger] x.cards.contains_key(c) ==> {
        &&& y.cards.contains_key(c)
        &&& y.cards[c].title == x.cards[c].title
        &&& y.cards[c].faces == x.cards[c].faces
        &&& y.cards[c].id == x.cards[c].id
        &&& x.cards[c].printings.subset_of(y.cards[c].printings)
    }
}

/// `b` keeps what `a` had: its local images and remappings, its collection
/// names, and what each of its print groups had.
pub open spec fn library_kept(a: MultiLibraryView, b: MultiLibraryView) -> bool {
    &&& b.local_images == a.local_images
    &&& b.nrdb_remap == a.nrdb_remap
    &&& forall|g: Seq<char>| #[trigger] a.collection_names.contains_key(g) ==> b.collection_names.contains_key(g)
        && b.collection_names[g] == a.collection_names[g]
    &&& forall|g: Seq<char>| #[trigger] a.libraries.contains_key(g) ==> b.libraries.contains_key(g) && group_kept(
        a.libraries[g],
        b.libraries[g],
    )
}

/// Every dynamic image belongs to a face printing of the library.
pub open spec fn assets_known(st: LoadState) -> bool {
    forall|k: FaceKey| #[trigger] st.assets.contains_key(k) ==> st.library.libraries.contains_key(k.group)
        && st.library.libraries[k.group].faces.contains_key(k)
}

/// The alias is one of a face of one of the printings.
pub open spec fn is_feed_alias(printings: Seq<ProxyPrintingView>, k: FaceKey) -> bool {
    exists|i: int, j: int|
        0 <= i < printings.len() && 0 <= j < aliases_of(printings[i].metadata).len() && k == #[trigger] aliases_of(
            printings[i].metadata,
        )[j]
}

proof fn lemma_group_kept_transitive(x: LibraryView, y: LibraryView, z: LibraryView)
    requires
        group_kept(x, y),
        group_kept(y, z),
    ensures
        group_kept(x, z),
{
    assert forall|c: Seq<char>| #[trigger] x.cards.contains_key(c) implies {
        &&& z.cards.contains_key(c)
        &&& z.cards[c].title == x.cards[c].title
        &&& z.cards[c].faces == x.cards[c].faces
        &&& z.cards[c].id == x.cards[c].id
        &&& x.cards[c].printings.subset_of(z.cards[c].printings)
    } by {
        assert(y.cards.contains_key(c));
    }
    assert forall|k: FaceKey| #[trigger] x.faces.contains_key(k) implies z.faces.contains_key(k) && z.faces[k].card_id
        == x.faces[k].card_id by {
        assert(y.faces.contains_key(k));
    }
}

proof fn lemma_library_kept_transitive(a: MultiLibraryView, b: MultiLibraryView, c: MultiLibraryView)
    requires
        library_kept(a, b),
        library_kept(b, c),
    ensures
        library_kept(a, c),
{
    assert forall|g: Seq<char>| #[trigger] a.libraries.contains_key(g) implies c.libraries.contains_key(g)
        && group_kept(a.libraries[g], c.libraries[g]) by {
        assert(b.libraries.contains_key(g));
        lemma_group_kept_transitive(a.libraries[g], b.libraries[g], c.libraries[g]);
    }
    assert forall|g: Seq<char>| #[trigger] a.collection_names.contains_key(g) implies c.collection_names.contains_key(g)
        && c.collection_names[g] == a.collection_names[g] by {
        assert(b.collection_names.contains_key(g));
    }
}

/// One printing merged in: the library keeps what it had, and every dynamic
/// image is an old one or one of this printing's aliases, and belongs to a
/// face printing of the library.
proof fn lemma_entry_step(st: LoadState, p: ProxyPrintingView)
    requires
        entry_step(st, p) is Ok,
        assets_known(st),
    ensures
        library_kept(st.library, entry_step(st, p)->Ok_0.library),
        assets_known(entry_step(st, p)->Ok_0),
        forall|k: FaceKey| #[trigger] entry_step(st, p)->Ok_0.assets.contains_key(k) ==> st.assets.contains_key(k)
            || exists|j: int| 0 <= j < aliases_of(p.metadata).len() && k == aliases_of(p.metadata)[j],
{
    let m = p.metadata;
    let g = m.print_group;
    let group = group_of(st.library, g);
    let card_id = card_identity_verdict(group, m)->Ok_0;
    let card = base_card(group, card_id, m);
    let aliases = aliases_of(m);
    let pairs = dynamic_pairs(p);
    let step = alias_stepper(card_id, m.printing_name);
    let init = (card.printings, group.faces, st.assets);
    let inv = |t: (Set<FaceKey>, Map<FaceKey, PrintingView>, Map<FaceKey, Seq<char>>)| {
        &&& forall|k: FaceKey| #[trigger] group.faces.contains_key(k) ==> t.1.contains_key(k) && t.1[k].card_id
            == group.faces[k].card_id
        &&& card.printings.subset_of(t.0)
        &&& forall|k: FaceKey| #[trigger] t.2.contains_key(k) ==> st.assets.contains_key(k) || (k.group == g
            && t.1.contains_key(k) && exists|j: int| 0 <= j < aliases.len() && k == aliases[j])
    };
    assert forall|t: (Set<FaceKey>, Map<FaceKey, PrintingView>, Map<FaceKey, Seq<char>>), i: int|
        0 <= i < pairs.len() && inv(t) && (#[trigger] step(t, pairs[i])) is Ok implies inv(step(t, pairs[i])->Ok_0) by {
        let a = pairs[i].0;
        assert(a == aliases[i]);
        let t2 = step(t, pairs[i])->Ok_0;
        assert(t2 == (t.0.insert(a), t.1.insert(a, PrintingView { id: a, card_id, printing_name: m.printing_name }), t.2.insert(a, pairs[i].1)));
        assert forall|k: FaceKey| #[trigger] group.faces.contains_key(k) implies t2.1.contains_key(k) && t2.1[k].card_id
            == group.faces[k].card_id by {
            if k == a {
                assert(group.faces.contains_key(aliases[i]));
            }
        }
        assert forall|k: FaceKey| #[trigger] t2.2.contains_key(k) implies st.assets.contains_key(k) || (k.group == g
            && t2.1.contains_key(k) && exists|j: int| 0 <= j < aliases.len() && k == aliases[j]) by {
            if k == a {
                assert(aliases[i].group == g);
            }
        }
    }
    assert(inv(init));
    lemma_try_fold_invariant(pairs, init, step, inv);
    let after = try_fold(pairs, init, step)->Ok_0;
    let st2 = entry_step(st, p)->Ok_0;
    assert(st2 == entry_result(st, g, group, card_id, card, after));
    let newgroup = st2.library.libraries[g];
    if st.library.libraries.contains_key(g) {
        assert(group == st.library.libraries[g]);
        assert forall|c: Seq<char>| #[trigger] group.cards.contains_key(c) implies {
            &&& newgroup.cards.contains_key(c)
            &&& newgroup.cards[c].title == group.cards[c].title
            &&& newgroup.cards[c].faces == group.cards[c].faces
            &&& newgroup.cards[c].id == group.cards[c].id
            &&& group.cards[c].printings.subset_of(newgroup.cards[c].printings)
        } by {
            if c == card_id {
                assert(card == group.cards[c]);
            }
        }
        assert(group_kept(group, newgroup));
    }
    assert(library_kept(st.library, st2.library));
    assert forall|k: FaceKey| #[trigger] st2.assets.contains_key(k) implies st2.library.libraries.contains_key(k.group)
        && st2.library.libraries[k.group].faces.contains_key(k) by {
        if st.assets.contains_key(k) {
            assert(st.library.libraries.contains_key(k.group));
            if k.group == g {
                assert(group == st.library.libraries[g]);
                assert(group.faces.contains_key(k));
            }
        }
    }
}

/// Loading a feed keeps the bundled library (see `library_kept`), and every
/// dynamic image is for an alias of the feed that the merged library has, so
/// aliases the feed no longer has are gone.
pub proof fn law_load_keeps_bundled(base: MultiLibraryView, printings: Seq<ProxyPrintingView>)
    requires
        loaded(base, printings) is Ok,
    ensures
        library_kept(base, loaded(base, printings)->Ok_0.library),
        assets_known(loaded(base, printings)->Ok_0),
        forall|k: FaceKey| #[trigger] loaded(base, printings)->Ok_0.assets.contains_key(k) ==> is_feed_alias(
            printings,
            k,
        ),
{
    let init = LoadState { library: base, assets: Map::empty() };
    let inv = |st: LoadState| {
        &&& library_kept(base, st.library)
        &&& assets_known(st)
        &&& forall|k: FaceKey| #[trigger] st.assets.contains_key(k) ==> is_feed_alias(printings, k)
    };
    assert forall|st: LoadState, i: int|
        0 <= i < printings.len() && inv(st) && (#[trigger] entry_stepper()(st, printings[i])) is Ok implies inv(
            entry_stepper()(st, printings[i])->Ok_0,
        ) by {
        lemma_entry_step(st, printings[i]);
        let st2 = entry_step(st, printings[i])->Ok_0;
        lemma_library_kept_transitive(base, st.library, st2.library);
        assert forall|k: FaceKey| #[trigger] st2.assets.contains_key(k) implies is_feed_alias(printings, k) by {
            if !st.assets.contains_key(k) {
                let j = choose|j: int| 0 <= j < aliases_of(printings[i].metadata).len() && k == aliases_of(printings[i].metadata)[j];
                assert(k == aliases_of(printings[i].metadata)[j]);
            }
        }
    }
    assert(library_kept(base, base)) by {
        assert forall|g: Seq<char>| #[trigger] base.libraries.contains_key(g) implies base.libraries.contains_key(g)
            && group_kept(base.libraries[g], base.libraries[g]) by {
            let x = base.libraries[g];
            assert forall|c: Seq<char>| #[trigger] x.cards.contains_key(c) implies x.cards[c].printings.subset_of(
                x.cards[c].printings,
            ) by {}
        }
    }
    assert(inv(init));
    lemma_try_fold_invariant(printings, init, entry_stepper(), inv);
}

/// Whether a card's face data is what a feed printing of that card declares:
/// a single face; for a card with several faces, the titles of the faces after
/// the front one, in order; for a card with variants, as many variants as the
/// printing has faces.
pub open spec fn declared_faces(f: AltFacesView, m: PrintingMetaView) -> bool {
    match m.face_kind {
        FaceKind::Single => f == AltFacesView::Single,
        FaceKind::Variants => f == AltFacesView::Variants(m.faces.len() as usize),
        FaceKind::Multiple => f matches AltFacesView::Multiple(t) && t.len() == (if m.faces.len() > 0 {
            m.faces.len() - 1
        } else {
            0
        }) && forall|i: int| 0 <= i < t.len() ==> #[trigger] t[i].title == m.faces[i + 1].title,
    }
}

/// The card with this title and the declared faces, in this print group.
pub open spec fn has_declared_card(library: MultiLibraryView, m: PrintingMetaView) -> bool {
    &&& library.libraries.contains_key(m.print_group)
    &&& exists|c: Seq<char>|
        #[trigger] library.libraries[m.print_group].cards.contains_key(c)
            && library.libraries[m.print_group].cards[c].title.title == m.title
            && declared_faces(library.libraries[m.print_group].cards[c].faces, m)
}

/// After one printing is loaded, its group has a card with its title and the
/// face data it declares.
proof fn lemma_entry_declared_card(st: LoadState, p: ProxyPrintingView)
    requires
        entry_step(st, p) is Ok,
    ensures
        has_declared_card(entry_step(st, p)->Ok_0.library, p.metadata),
{
    let m = p.metadata;
    let g = m.print_group;
    let group = group_of(st.library, g);
    let card_id = card_identity_verdict(group, m)->Ok_0;
    let card = base_card(group, card_id, m);
    let pairs = dynamic_pairs(p);
    let after = try_fold(pairs, (card.printings, group.faces, st.assets), alias_stepper(card_id, m.printing_name))->Ok_0;
    let st2 = entry_step(st, p)->Ok_0;
    assert(st2 == entry_result(st, g, group, card_id, card, after));
    let lib = st2.library.libraries[g];
    assert(lib.cards.contains_key(card_id));
    assert(lib.cards[card_id].faces == card.faces && lib.cards[card_id].title == card.title);
    if group.cards.contains_key(card_id) {
        assert(same_faces(card.faces, faces_meta_of(m)));
        if let AltFacesView::Multiple(x) = card.faces {
            let y = back_titles(m.faces);
            assert(title_texts(x) == title_texts(y));
            assert forall|i: int| 0 <= i < x.len() implies #[trigger] x[i].title == m.faces[i + 1].title by {
                assert(title_texts(x)[i] == x[i].title);
                assert(title_texts(y)[i] == y[i].title);
            }
        }
    }
    assert(declared_faces(lib.cards[card_id].faces, m));
}

/// Loading a feed leaves, for every printing of it, a card in its print group
/// with its title and the face data it declares: as many variants as it has
/// faces for a card with variants, the back faces' titles for a card with
/// several faces, a single face otherwise.
pub proof fn law_loaded_cards_declare_faces(base: MultiLibraryView, printings: Seq<ProxyPrintingView>, j: int)
    requires
        loaded(base, printings) is Ok,
        0 <= j < printings.len(),
    ensures
        has_declared_card(loaded(base, printings)->Ok_0.library, printings[j].metadata),
{
    let init = LoadState { library: base, assets: Map::empty() };
    let step = entry_stepper();
    let m = printings[j].metadata;
    let g = m.print_group;
    lemma_try_fold_ok_step(printings, init, step, j);
    let pre = printings.subrange(0, j);
    law_load_keeps_bundled(base, pre);
    let prop = |st: LoadState| assets_known(st) && has_declared_card(st.library, m);
    let st_j = try_fold(pre, init, step)->Ok_0;
    lemma_entry_declared_card(st_j, printings[j]);
    lemma_entry_step(st_j, printings[j]);
    assert forall|t: LoadState, i: int| j < i < printings.len() && prop(t) && (#[trigger] step(t, printings[i])) is Ok
        implies prop(step(t, printings[i])->Ok_0) by {
        lemma_entry_step(t, printings[i]);
        let t2 = entry_step(t, printings[i])->Ok_0;
        let c = choose|c: Seq<char>|
            #[trigger] t.library.libraries[g].cards.contains_key(c) && t.library.libraries[g].cards[c].title.title == m.title
                && declared_faces(t.library.libraries[g].cards[c].faces, m);
        assert(t2.library.libraries.contains_key(g));
        assert(group_kept(t.library.libraries[g], t2.library.libraries[g]));
        assert(t2.library.libraries[g].cards.contains_key(c));
    }
    lemma_try_fold_keeps(printings, init, step, prop, j);
}

/// The assembled state shows, for a face printing, its local override (the
/// bundled library's overrides updated by the overlay's) first; else the card
/// feed's image; else the general catalogue's; else the URL derived from the
/// identity.
pub proof fn law_display_order(
    base: MultiLibraryView,
    feed: Option<ProxyIndexView>,
    asset_base: Seq<char>,
    unsigned_feed: Seq<u8>,
    catalog: Option<CatalogView>,
    overlay: Option<MultiLibraryView>,
    k: FaceKey,
)
    ensures
        ({
            let fs = feed_state(base, feed, asset_base, unsigned_feed);
            let st = with_overlay(with_catalog(fs, catalog), overlay);
            let local = match overlay {
                Some(o) => overlay_local_images(base.local_images, o.local_images),
                None => base.local_images,
            };
            &&& st.library.local_images == local
            &&& resolved_image_url(ImageKey::Face(k), st.library, st.published) == if last_local_image(local, k) is Some {
                last_local_image(local, k)->0
            } else if fs.published.card_faces.contains_key(k) {
                fs.published.card_faces[k]
            } else if catalog is Some && published_index(catalog->0, fs.library) is Ok
                && published_index(catalog->0, fs.library)->Ok_0.card_faces.contains_key(k) {
                published_index(catalog->0, fs.library)->Ok_0.card_faces[k]
            } else {
                legacy_image_url(ImageKey::Face(k))
            }
        }),
{
    if let Some(index) = feed {
        if proxy_index_verdict(index, asset_base, unsigned_feed) is Ok && loaded(base, index.printings) is Ok {
            law_load_keeps_bundled(base, index.printings);
        }
    }
}

/// Upstream identities are merged without title-based guesses: the identity
/// that a printing settles on does not depend on its titles.
pub proof fn law_identity_ignores_titles(group: LibraryView, m: PrintingMetaView, other: PrintingMetaView)
    requires
        other.card_id == m.card_id,
        other.upstream_card_id == m.upstream_card_id,
        other.printing_id == m.printing_id,
        other.print_group == m.print_group,
        other.faces.len() == m.faces.len(),
        forall|i: int| 0 <= i < m.faces.len() ==> (#[trigger] other.faces[i]).selector == m.faces[i].selector,
    ensures
        card_identity_verdict(group, other) == card_identity_verdict(group, m),
{
    assert(aliases_of(other) =~= aliases_of(m));
}

} // verus!
