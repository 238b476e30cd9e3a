//! What holds of every graph view.

use vstd::prelude::*;
use crate::api::{LinkView, RelationsJson};
use crate::identity::{id_text, identifier_text, key_of, spec_decode_id};
use crate::order::{lemma_ascending_unique, lemma_text_asymmetric, text_before};
use crate::relations::{
    describes, is_graph_view, lemma_shown_id, link_before, link_of, link_views, node_views,
    GraphSource,
};
use crate::rooms::{room_denied, seed_bot_name, SEED_ROOM_HASH};

verus! {

/// Of two links at most one comes before the other.
pub proof fn lemma_link_asymmetric(a: LinkView, b: LinkView)
    ensures
        !(link_before(a, b) && link_before(b, a)),
{
    lemma_text_asymmetric(a.source, b.source);
    lemma_text_asymmetric(a.target, b.target);
    lemma_text_asymmetric(a.source, a.source);
}

/// A source has one graph view: two views of the same tables and joined
/// rooms hold the same rooms and links in the same order.
pub proof fn lemma_view_unique(a: RelationsJson, b: RelationsJson, source: GraphSource)
    requires
        is_graph_view(a, source),
        is_graph_view(b, source),
    ensures
        link_views(a.links@) == link_views(b.links@),
        node_views(a.nodes@) == node_views(b.nodes@),
{
    let (ha, ea) = choose|hashes: Seq<u128>, edges: Seq<(u128, u128)>|
        describes(a, source, hashes, edges);
    let (hb, eb) = choose|hashes: Seq<u128>, edges: Seq<(u128, u128)>|
        describes(b, source, hashes, edges);
    let la = link_views(a.links@);
    let lb = link_views(b.links@);
    let link_order = |x: LinkView, y: LinkView| link_before(x, y);
    assert forall|x: LinkView, y: LinkView| !(#[trigger] link_order(x, y) && link_order(
        y,
        x,
    )) by {
        lemma_link_asymmetric(x, y);
    }
    assert forall|i: int| 0 <= i < la.len() implies lb.contains(#[trigger] la[i]) by {
        assert(source.is_link(ea[i].0, ea[i].1));
        assert(eb.contains((ea[i].0, ea[i].1)));
        let k = choose|k: int| 0 <= k < eb.len() && eb[k] == (ea[i].0, ea[i].1);
        assert(lb[k] == la[i]);
    }
    assert forall|j: int| 0 <= j < lb.len() implies la.contains(#[trigger] lb[j]) by {
        assert(source.is_link(eb[j].0, eb[j].1));
        assert(ea.contains((eb[j].0, eb[j].1)));
        let k = choose|k: int| 0 <= k < ea.len() && ea[k] == (eb[j].0, eb[j].1);
        assert(la[k] == lb[j]);
    }
    assert forall|i: int, j: int| 0 <= i < j < la.len() implies link_order(la[i], la[j]) by {
        assert(link_before(a.links@[i]@, a.links@[j]@));
    }
    assert forall|i: int, j: int| 0 <= i < j < lb.len() implies link_order(lb[i], lb[j]) by {
        assert(link_before(b.links@[i]@, b.links@[j]@));
    }
    lemma_ascending_unique(la, lb, link_order);

    let ia = a.nodes@.map_values(|node: crate::api::RoomRelation| node.id@);
    let ib = b.nodes@.map_values(|node: crate::api::RoomRelation| node.id@);
    let id_order = |x: Seq<char>, y: Seq<char>| text_before(x, y);
    assert forall|x: Seq<char>, y: Seq<char>| !(#[trigger] id_order(x, y) && id_order(y, x)) by {
        lemma_text_asymmetric(x, y);
    }
    assert forall|i: int| 0 <= i < ia.len() implies ib.contains(#[trigger] ia[i]) by {
        assert(source.is_node(ha[i]));
        lemma_shown_id(source, ha[i]);
        assert(hb.contains(ha[i]));
        let k = choose|k: int| 0 <= k < hb.len() && hb[k] == ha[i];
        assert(source.is_node(hb[k]));
        assert(b.nodes@[k]@.id == id_text(hb[k]));
        assert(ib[k] == ia[i]);
    }
    assert forall|j: int| 0 <= j < ib.len() implies ia.contains(#[trigger] ib[j]) by {
        assert(source.is_node(hb[j]));
        lemma_shown_id(source, hb[j]);
        assert(ha.contains(hb[j]));
        let k = choose|k: int| 0 <= k < ha.len() && ha[k] == hb[j];
        assert(source.is_node(ha[k]));
        assert(a.nodes@[k]@.id == id_text(ha[k]));
        assert(ia[k] == ib[j]);
    }
    assert forall|i: int, j: int| 0 <= i < j < ia.len() implies id_order(ia[i], ia[j]) by {
        assert(text_before(a.nodes@[i].id@, a.nodes@[j].id@));
    }
    assert forall|i: int, j: int| 0 <= i < j < ib.len() implies id_order(ib[i], ib[j]) by {
        assert(text_before(b.nodes@[i].id@, b.nodes@[j].id@));
    }
    lemma_ascending_unique(ia, ib, id_order);
    assert(a.nodes@.len() == b.nodes@.len());
    assert forall|i: int| 0 <= i < a.nodes@.len() implies node_views(a.nodes@)[i] == node_views(
        b.nodes@,
    )[i] by {
        assert(ia[i] == ib[i]);
        assert(source.is_node(ha[i]));
        assert(source.is_node(hb[i]));
        assert(spec_decode_id(a.nodes@[i].id@) == Some(ha[i]));
        assert(spec_decode_id(b.nodes@[i].id@) == Some(hb[i]));
    }
    assert(node_views(a.nodes@) =~= node_views(b.nodes@));
}

/// Every link of a view joins two rooms that resolve, the second recorded
/// as a child of the first, and both are rooms of the view. A recorded
/// child that does not resolve has no link.
pub proof fn lemma_view_links_resolve(out: RelationsJson, source: GraphSource, k: int)
    requires
        is_graph_view(out, source),
        0 <= k < out.links@.len(),
    ensures
        exists|parent: u128, child: u128|
            {
                &&& out.links@[k]@ == #[trigger] link_of(parent, child)
                &&& source.kids(parent).contains(child)
                &&& source.shown(parent) is Some
                &&& source.shown(child) is Some
                &&& exists|i: int|
                    0 <= i < out.nodes@.len() && (#[trigger] out.nodes@[i]).id@
                        == out.links@[k].source@
                &&& exists|j: int|
                    0 <= j < out.nodes@.len() && (#[trigger] out.nodes@[j]).id@
                        == out.links@[k].target@
            },
{
    let (hashes, edges) = choose|hashes: Seq<u128>, edges: Seq<(u128, u128)>|
        describes(out, source, hashes, edges);
    let parent = edges[k].0;
    let child = edges[k].1;
    assert(source.is_link(parent, child));
    assert(source.kids(parent).contains(child));
    assert(source.children.contains_key(key_of(parent)));
    assert(source.is_node(parent));
    assert(source.is_node(child));
    assert(hashes.contains(parent));
    assert(hashes.contains(child));
    let i = choose|i: int| 0 <= i < hashes.len() && hashes[i] == parent;
    let j = choose|j: int| 0 <= j < hashes.len() && hashes[j] == child;
    assert(source.is_node(hashes[i]));
    assert(source.is_node(hashes[j]));
    lemma_shown_id(source, parent);
    lemma_shown_id(source, child);
    assert(out.nodes@[i].id@ == out.links@[k].source@);
    assert(out.nodes@[j].id@ == out.links@[k].target@);
    assert(out.links@[k]@ == link_of(parent, child));
}

/// Nothing is shown of a denied room: not of the seed room, and not of a
/// room under the seed account's name.
pub proof fn lemma_denied_not_shown(source: GraphSource, hash: u128)
    requires
        source.shown(hash) is Some,
    ensures
        hash != SEED_ROOM_HASH,
        source.shown(hash)->0.name != seed_bot_name(),
        source.names.contains_key(key_of(hash)),
        !room_denied(hash, identifier_text(source.names[key_of(hash)]), source.joined),
{
}

/// No room of a view is denied, and no link of a view starts or ends at a
/// denied room.
pub proof fn lemma_view_hides_denied(out: RelationsJson, source: GraphSource)
    requires
        is_graph_view(out, source),
    ensures
        forall|i: int|
            0 <= i < out.nodes@.len() ==> {
                &&& (#[trigger] out.nodes@[i]).name@ != seed_bot_name()
                &&& spec_decode_id(out.nodes@[i].id@) != Some(SEED_ROOM_HASH)
            },
        forall|k: int|
            0 <= k < out.links@.len() ==> exists|parent: u128, child: u128|
                {
                    &&& (#[trigger] out.links@[k])@ == #[trigger] link_of(parent, child)
                    &&& parent != SEED_ROOM_HASH
                    &&& child != SEED_ROOM_HASH
                    &&& source.shown(parent)->0.name != seed_bot_name()
                    &&& source.shown(child)->0.name != seed_bot_name()
                },
{
    let (hashes, edges) = choose|hashes: Seq<u128>, edges: Seq<(u128, u128)>|
        describes(out, source, hashes, edges);
    assert forall|i: int| 0 <= i < out.nodes@.len() implies {
        &&& (#[trigger] out.nodes@[i]).name@ != seed_bot_name()
        &&& spec_decode_id(out.nodes@[i].id@) != Some(SEED_ROOM_HASH)
    } by {
        assert(source.is_node(hashes[i]));
        lemma_denied_not_shown(source, hashes[i]);
    }
    assert forall|k: int| 0 <= k < out.links@.len() implies exists|parent: u128, child: u128|
        {
            &&& (#[trigger] out.links@[k])@ == #[trigger] link_of(parent, child)
            &&& parent != SEED_ROOM_HASH
            &&& child != SEED_ROOM_HASH
            &&& source.shown(parent)->0.name != seed_bot_name()
            &&& source.shown(child)->0.name != seed_bot_name()
        } by {
        assert(source.is_link(edges[k].0, edges[k].1));
        lemma_denied_not_shown(source, edges[k].0);
        lemma_denied_not_shown(source, edges[k].1);
        assert(out.links@[k]@ == link_of(edges[k].0, edges[k].1));
    }
}

} // verus!
