//! The drawing phase: what is drawn, and in which order.

use crate::components::{Position, Renderable, RenderableType};
use crate::resources::Time;
use crate::world::{Entity, World};
use itertools::Itertools;
use std::cmp::Ordering;
use vstd::prelude::*;
use vstd::seq_lib::lemma_seq_contains_after_push;

verus! {

/// One image to draw: which file, in which cell, on which layer.
#[derive(Debug, PartialEq, Eq)]
pub struct Sprite {
    pub image: String,
    pub position: Position,
}

impl View for Sprite {
    type V = (Seq<char>, Position);

    open spec fn view(&self) -> (Seq<char>, Position) {
        (self.image@, self.position)
    }
}

/// The views of a list of sprites.
pub open spec fn shown(sprites: Seq<Sprite>) -> Seq<(Seq<char>, Position)> {
    sprites.map_values(|sprite: Sprite| sprite@)
}

/// The frame of an animation that is shown `millis` milliseconds after
/// start: a fixed image has one frame; an animation goes through four
/// a second.
pub open spec fn frame_of(kind: RenderableType, millis: nat) -> nat {
    match kind {
        RenderableType::Static => 0,
        RenderableType::Animated => (millis % 1000) / 250,
    }
}

/// The image with which `renderable` is drawn `millis` milliseconds
/// after start. An animation with other than four frames goes round its
/// frames as far as the four steps of a second take it.
pub open spec fn image_of(renderable: Renderable, millis: nat) -> Seq<char> {
    renderable@[(frame_of(Renderable::kind_of(renderable@.len()), millis)
        % renderable@.len()) as int]
}

/// The entity has a position and a renderable, so it is drawn.
pub open spec fn is_drawn(entity: Entity) -> bool {
    entity.renderable is Some && entity.position is Some
}

/// The sprite with which a drawn entity is shown.
pub open spec fn sprite_of(entity: Entity, millis: nat) -> (Seq<char>, Position) {
    (image_of(entity.renderable->0, millis), entity.position->0)
}

/// The entity is drawn, and on this layer.
pub open spec fn is_drawn_on(entity: Entity, layer: u8) -> bool {
    is_drawn(entity) && entity.position->0.z == layer
}

/// Some entity is drawn on this layer.
pub open spec fn is_in_use(entities: Seq<Entity>, layer: u8) -> bool {
    exists|i: int| 0 <= i < entities.len() && is_drawn_on(#[trigger] entities[i], layer)
}

/// The sprites of the first `n` entities that are drawn on `layer`, in
/// the order of the entities.
pub open spec fn layer_sprites(entities: Seq<Entity>, millis: nat, layer: u8, n: nat) -> Seq<
    (Seq<char>, Position),
>
    decreases n,
{
    if n == 0 {
        Seq::empty()
    } else {
        let before = layer_sprites(entities, millis, layer, (n - 1) as nat);
        let entity = entities[n - 1];
        if is_drawn_on(entity, layer) {
            before.push(sprite_of(entity, millis))
        } else {
            before
        }
    }
}

/// The sprites of all layers below `limit`, lowest layer first.
pub open spec fn sprites_below(entities: Seq<Entity>, millis: nat, limit: nat) -> Seq<
    (Seq<char>, Position),
>
    decreases limit,
{
    if limit == 0 {
        Seq::empty()
    } else {
        sprites_below(entities, millis, (limit - 1) as nat) + layer_sprites(
            entities,
            millis,
            (limit - 1) as u8,
            entities.len(),
        )
    }
}

/// What is drawn `millis` milliseconds after start: one sprite for each
/// entity that has a position and a renderable, layer by layer from the
/// lowest, and within a layer in the order of the entities.
pub open spec fn frame(entities: Seq<Entity>, millis: nat) -> Seq<(Seq<char>, Position)> {
    sprites_below(entities, millis, 256)
}

/// `sprite` shows one of the entities.
pub open spec fn shows_an_entity(
    entities: Seq<Entity>,
    millis: nat,
    sprite: (Seq<char>, Position),
) -> bool {
    exists|i: int|
        0 <= i < entities.len() && is_drawn(entities[i]) && sprite == #[trigger] sprite_of(
            entities[i],
            millis,
        )
}

/// How many of the first `n` entities are drawn.
pub open spec fn drawn_count(entities: Seq<Entity>, n: nat) -> nat
    decreases n,
{
    if n == 0 {
        0
    } else {
        drawn_count(entities, (n - 1) as nat) + if is_drawn(entities[n - 1]) {
            1nat
        } else {
            0nat
        }
    }
}

/// How many of the first `n` entities are drawn on a layer below
/// `limit`.
pub open spec fn drawn_below(entities: Seq<Entity>, limit: nat, n: nat) -> nat
    decreases n,
{
    if n == 0 {
        0
    } else {
        drawn_below(entities, limit, (n - 1) as nat) + if is_drawn(entities[n - 1])
            && entities[n - 1].position->0.z < limit {
            1nat
        } else {
            0nat
        }
    }
}

/// The sprites of a layer are those of the entities drawn on it, one
/// for each.
proof fn lemma_layer_sprites(entities: Seq<Entity>, millis: nat, layer: u8, n: nat)
    requires
        n <= entities.len(),
    ensures
        forall|k: int|
            0 <= k < layer_sprites(entities, millis, layer, n).len() ==> {
                let sprite = #[trigger] layer_sprites(entities, millis, layer, n)[k];
                &&& sprite.1.z == layer
                &&& exists|i: int|
                    0 <= i < n && is_drawn(entities[i]) && sprite == #[trigger] sprite_of(
                        entities[i],
                        millis,
                    )
            },
        forall|i: int|
            0 <= i < n && is_drawn_on(entities[i], layer) ==> layer_sprites(
                entities,
                millis,
                layer,
                n,
            ).contains(#[trigger] sprite_of(entities[i], millis)),
        layer_sprites(entities, millis, layer, n).len() + drawn_below(entities, layer as nat, n)
            == drawn_below(entities, layer as nat + 1, n),
    decreases n,
{
    if n > 0 {
        let before = layer_sprites(entities, millis, layer, (n - 1) as nat);
        let all = layer_sprites(entities, millis, layer, n);
        let entity = entities[n - 1];
        lemma_layer_sprites(entities, millis, layer, (n - 1) as nat);
        assert forall|k: int| 0 <= k < all.len() implies {
            let sprite = #[trigger] all[k];
            &&& sprite.1.z == layer
            &&& exists|i: int|
                0 <= i < n && is_drawn(entities[i]) && sprite == #[trigger] sprite_of(
                    entities[i],
                    millis,
                )
        } by {
            if k < before.len() {
                let sprite = before[k];
                let i = choose|i: int|
                    0 <= i < n - 1 && is_drawn(entities[i]) && sprite == #[trigger] sprite_of(
                        entities[i],
                        millis,
                    );
                assert(all[k] == sprite_of(entities[i], millis));
            } else {
                assert(all[k] == sprite_of(entities[n - 1], millis));
            }
        }
        assert forall|i: int| 0 <= i < n && is_drawn_on(entities[i], layer) implies all.contains(
            #[trigger] sprite_of(entities[i], millis),
        ) by {
            if i < n - 1 {
                let k = choose|k: int|
                    0 <= k < before.len() && before[k] == sprite_of(entities[i], millis);
                assert(all[k] == sprite_of(entities[i], millis));
            } else {
                assert(all[all.len() - 1] == sprite_of(entities[i], millis));
            }
        }
    }
}

/// What is drawn below a limit: the sprites of the entities on the
/// layers below it, one for each, in the order of the layers.
proof fn lemma_sprites_below(entities: Seq<Entity>, millis: nat, limit: nat)
    requires
        limit <= 256,
    ensures
        forall|k: int|
            0 <= k < sprites_below(entities, millis, limit).len() ==> {
                let sprite = #[trigger] sprites_below(entities, millis, limit)[k];
                &&& sprite.1.z < limit
                &&& exists|i: int|
                    0 <= i < entities.len() && is_drawn(entities[i]) && sprite
                        == #[trigger] sprite_of(entities[i], millis)
            },
        forall|a: int, b: int|
            0 <= a <= b < sprites_below(entities, millis, limit).len() ==> sprites_below(
                entities,
                millis,
                limit,
            )[a].1.z <= sprites_below(entities, millis, limit)[b].1.z,
        forall|i: int|
            0 <= i < entities.len() && is_drawn(entities[i]) && entities[i].position->0.z < limit
                ==> sprites_below(entities, millis, limit).contains(
                #[trigger] sprite_of(entities[i], millis),
            ),
        sprites_below(entities, millis, limit).len() == drawn_below(
            entities,
            limit,
            entities.len(),
        ),
    decreases limit,
{
    if limit > 0 {
        let layer = (limit - 1) as u8;
        let lower = sprites_below(entities, millis, (limit - 1) as nat);
        let top = layer_sprites(entities, millis, layer, entities.len());
        let all = sprites_below(entities, millis, limit);
        lemma_sprites_below(entities, millis, (limit - 1) as nat);
        lemma_layer_sprites(entities, millis, layer, entities.len());
        assert forall|k: int| 0 <= k < all.len() implies {
            let sprite = #[trigger] all[k];
            &&& sprite.1.z < limit
            &&& exists|i: int|
                0 <= i < entities.len() && is_drawn(entities[i]) && sprite
                    == #[trigger] sprite_of(entities[i], millis)
        } by {
            if k < lower.len() {
                assert(all[k] == lower[k]);
            } else {
                assert(all[k] == top[k - lower.len()]);
            }
        }
        assert forall|a: int, b: int| 0 <= a <= b < all.len() implies all[a].1.z
            <= all[b].1.z by {
            if b < lower.len() {
                assert(all[a] == lower[a] && all[b] == lower[b]);
            } else if a < lower.len() {
                assert(all[a] == lower[a] && all[b] == top[b - lower.len()]);
            } else {
                assert(all[a] == top[a - lower.len()] && all[b] == top[b - lower.len()]);
            }
        }
        assert forall|i: int|
            0 <= i < entities.len() && is_drawn(entities[i]) && entities[i].position->0.z
                < limit implies all.contains(#[trigger] sprite_of(entities[i], millis)) by {
            let sprite = sprite_of(entities[i], millis);
            if entities[i].position->0.z < limit - 1 {
                let k = choose|k: int| 0 <= k < lower.len() && lower[k] == sprite;
                assert(all[k] == sprite);
            } else {
                assert(is_drawn_on(entities[i], layer));
                let k = choose|k: int| 0 <= k < top.len() && top[k] == sprite;
                assert(all[lower.len() + k] == sprite);
            }
        }
    } else {
        lemma_none_below_zero(entities, entities.len());
    }
}

proof fn lemma_none_below_zero(entities: Seq<Entity>, n: nat)
    ensures
        drawn_below(entities, 0, n) == 0,
    decreases n,
{
    if n > 0 {
        lemma_none_below_zero(entities, (n - 1) as nat);
    }
}

proof fn lemma_all_below_256(entities: Seq<Entity>, n: nat)
    ensures
        drawn_below(entities, 256, n) == drawn_count(entities, n),
    decreases n,
{
    if n > 0 {
        lemma_all_below_256(entities, (n - 1) as nat);
    }
}

/// A frame shows every drawn entity once and nothing else, and it is in
/// the order of the layers: no sprite comes before one of a lower layer.
pub proof fn lemma_frame(entities: Seq<Entity>, millis: nat)
    ensures
        frame(entities, millis).len() == drawn_count(entities, entities.len()),
        forall|i: int|
            0 <= i < entities.len() && is_drawn(entities[i]) ==> frame(entities, millis).contains(
                #[trigger] sprite_of(entities[i], millis),
            ),
        forall|k: int|
            0 <= k < frame(entities, millis).len() ==> shows_an_entity(
                entities,
                millis,
                #[trigger] frame(entities, millis)[k],
            ),
        forall|a: int, b: int|
            0 <= a <= b < frame(entities, millis).len() ==> frame(entities, millis)[a].1.z
                <= frame(entities, millis)[b].1.z,
{
    lemma_sprites_below(entities, millis, 256);
    lemma_all_below_256(entities, entities.len());
    let shown = sprites_below(entities, millis, 256);
    assert forall|k: int| 0 <= k < shown.len() implies shows_an_entity(
        entities,
        millis,
        #[trigger] shown[k],
    ) by {
        assert(shown[k].1.z < 256);
    }
}

/// A layer that is not in use has no sprites.
proof fn lemma_layer_not_in_use(entities: Seq<Entity>, millis: nat, layer: u8, n: nat)
    requires
        n <= entities.len(),
        !is_in_use(entities, layer),
    ensures
        layer_sprites(entities, millis, layer, n) == Seq::<(Seq<char>, Position)>::empty(),
    decreases n,
{
    if n > 0 {
        lemma_layer_not_in_use(entities, millis, layer, (n - 1) as nat);
        assert(!is_drawn_on(entities[n - 1], layer));
    }
}

/// Layers that are not in use add nothing to what is drawn.
proof fn lemma_layers_not_in_use(entities: Seq<Entity>, millis: nat, from: nat, limit: nat)
    requires
        from <= limit <= 256,
        forall|layer: u8| from <= layer < limit ==> !is_in_use(entities, layer),
    ensures
        sprites_below(entities, millis, limit) == sprites_below(entities, millis, from),
    decreases limit,
{
    if from < limit {
        lemma_layers_not_in_use(entities, millis, from, (limit - 1) as nat);
        lemma_layer_not_in_use(entities, millis, (limit - 1) as u8, entities.len());
        assert(sprites_below(entities, millis, (limit - 1) as nat) + Seq::<
            (Seq<char>, Position),
        >::empty() =~= sprites_below(entities, millis, (limit - 1) as nat));
    }
}

/// A layer is in use among one entity more if it was in use before or
/// that entity is drawn on it.
proof fn lemma_in_use_next(entities: Seq<Entity>, i: int, layer: u8)
    requires
        0 <= i < entities.len(),
    ensures
        is_in_use(entities.take(i + 1), layer) <==> is_in_use(entities.take(i), layer)
            || is_drawn_on(entities[i], layer),
{
    let seen = entities.take(i);
    let next = entities.take(i + 1);
    if is_in_use(seen, layer) {
        let k = choose|k: int| 0 <= k < seen.len() && is_drawn_on(#[trigger] seen[k], layer);
        assert(next[k] == seen[k]);
    }
    if is_drawn_on(entities[i], layer) {
        assert(next[i] == entities[i]);
    }
    if is_in_use(next, layer) {
        let k = choose|k: int| 0 <= k < next.len() && is_drawn_on(#[trigger] next[k], layer);
        if k < i {
            assert(seen[k] == next[k]);
        }
    }
}

/// The order in which two layers are drawn: the lower one first.
pub fn by_layer(a: &u8, b: &u8) -> (order: Ordering)
    ensures
        order is Less <==> *a < *b,
        order is Equal <==> *a == *b,
        order is Greater <==> *a > *b,
{
    if *a < *b {
        Ordering::Less
    } else if *a > *b {
        Ordering::Greater
    } else {
        Ordering::Equal
    }
}

/// `Itertools::sorted_by`, which collects the items and sorts them with
/// the slice method `sort_by`. Taken on trust: the result holds the same
/// layers as often as `layers` does, in ascending order.
#[verifier::external_body]
fn sort_layers(layers: Vec<u8>) -> (sorted: Vec<u8>)
    ensures
        sorted@.to_multiset() == layers@.to_multiset(),
        forall|i: int, j: int| 0 <= i <= j < sorted@.len() ==> sorted@[i] <= sorted@[j],
{
    layers.into_iter().sorted_by(|a, b| by_layer(a, b)).collect()
}

/// Tells whether `layer` is among `layers`.
fn has_layer(layers: &Vec<u8>, layer: u8) -> (found: bool)
    ensures
        found == layers@.contains(layer),
{
    let mut i: usize = 0;
    while i < layers.len()
        invariant
            i <= layers@.len(),
            forall|k: int| 0 <= k < i ==> layers@[k] != layer,
        decreases layers@.len() - i,
    {
        if layers[i] == layer {
            return true;
        }
        i += 1;
    }
    false
}

/// The drawing phase. It works out what is to be drawn and in which
/// order; putting it on the screen is up to the caller.
pub struct RenderingSystem {}

impl RenderingSystem {
    /// The layers on which something is drawn, each once, lowest first.
    pub fn layers(entities: &Vec<Entity>) -> (layers: Vec<u8>)
        ensures
            forall|i: int, j: int| 0 <= i < j < layers@.len() ==> layers@[i] < layers@[j],
            forall|layer: u8| layers@.contains(layer) <==> is_in_use(entities@, layer),
    {
        let mut found: Vec<u8> = Vec::new();
        let mut i: usize = 0;
        while i < entities.len()
            invariant
                i <= entities@.len(),
                found@.no_duplicates(),
                forall|layer: u8|
                    found@.contains(layer) <==> is_in_use(entities@.take(i as int), layer),
            decreases entities@.len() - i,
        {
            let ghost before = found@;
            if entities[i].renderable.is_some() {
                if let Some(position) = entities[i].position {
                    if !has_layer(&found, position.z) {
                        found.push(position.z);
                    }
                }
            }
            proof {
                assert forall|layer: u8| found@.contains(layer) <==> is_in_use(
                    entities@.take(i + 1),
                    layer,
                ) by {
                    lemma_in_use_next(entities@, i as int, layer);
                    if found@ != before {
                        lemma_seq_contains_after_push(before, found@.last(), layer);
                    }
                }
            }
            i += 1;
        }
        assert(entities@.take(entities@.len() as int) =~= entities@);
        let layers = sort_layers(found);
        proof {
            broadcast use vstd::seq_lib::to_multiset_contains;

            found@.lemma_multiset_has_no_duplicates();
            layers@.lemma_multiset_has_no_duplicates_conv();
            assert forall|layer: u8| layers@.contains(layer) <==> found@.contains(layer) by {
                assert(layers@.to_multiset().count(layer) == found@.to_multiset().count(layer));
            }
        }
        layers
    }

    /// The image with which `renderable` is drawn at `time`.
    pub fn get_image(renderable: &Renderable, time: &Time) -> (image: String)
        ensures
            image@ == image_of(*renderable, time.millis()),
    {
        let path_index: usize = match renderable.kind() {
            RenderableType::Static => 0,
            RenderableType::Animated => ((time.as_millis() % 1000) / 250) as usize,
        };
        renderable.path(path_index).clone()
    }

    /// Lists what is to be drawn now, in drawing order: the lowest layer
    /// first, so that floors lie under what stands on them.
    pub fn run(&mut self, world: &World) -> (sprites: Vec<Sprite>)
        ensures
            shown(sprites@) == frame(world.entities@, world.time.millis()),
    {
        let ghost entities = world.entities@;
        let ghost millis = world.time.millis();
        let layers = Self::layers(&world.entities);
        let mut sprites: Vec<Sprite> = Vec::new();
        let ghost mut bound: nat = 0;
        let mut k: usize = 0;
        while k < layers.len()
            invariant
                k <= layers@.len(),
                entities == world.entities@,
                millis == world.time.millis(),
                bound <= 256,
                k == 0 ==> bound == 0,
                k > 0 ==> bound == layers@[k - 1] + 1,
                forall|i: int, j: int| 0 <= i < j < layers@.len() ==> layers@[i] < layers@[j],
                forall|layer: u8| layers@.contains(layer) <==> is_in_use(entities, layer),
                shown(sprites@) == sprites_below(entities, millis, bound),
            decreases layers@.len() - k,
        {
            let layer = layers[k];
            proof {
                lemma_layers_not_in_use(entities, millis, bound, layer as nat);
            }
            let ghost below = shown(sprites@);
            let mut i: usize = 0;
            while i < world.entities.len()
                invariant
                    i <= entities.len(),
                    entities == world.entities@,
                    millis == world.time.millis(),
                    shown(sprites@) == below + layer_sprites(entities, millis, layer, i as nat),
                decreases entities.len() - i,
            {
                let entity = &world.entities[i];
                if let Some(renderable) = &entity.renderable {
                    if let Some(position) = entity.position {
                        if position.z == layer {
                            let image = Self::get_image(renderable, &world.time);
                            let ghost before = shown(sprites@);
                            sprites.push(Sprite { image, position });
                            assert(shown(sprites@) =~= before.push((image@, position)));
                        }
                    }
                }
                i += 1;
            }
            proof {
                bound = layer as nat + 1;
            }
            k += 1;
        }
        proof {
            lemma_layers_not_in_use(entities, millis, bound, 256);
        }
        sprites
    }
}

} // verus!
