//! Surfaces that clients put on a layer of an output: panels, backgrounds, lock screens.
use crate::search::first_where;
use crate::search::lemma_first_found;
use crate::search::lemma_first_missing;
use crate::search::lemma_first_where;
use crate::space::Output;
use crate::space::Rectangle;
use crate::state::ProjectWC;
use vstd::prelude::*;

verus! {

/// The layers of an output, from the bottom to the top.
#[derive(Clone, Copy, PartialEq, Eq, Structural, Debug)]
pub enum Layer {
    Background,
    Bottom,
    Top,
    Overlay,
}

/// A surface on a layer of an output. `surface` is what the client draws on; `geometry` is
/// its place on the output, where it has been given one.
#[derive(Clone, Copy, PartialEq, Eq, Structural, Debug)]
pub struct LayerSurface {
    pub id: u64,
    pub surface: u64,
    pub layer: Layer,
    pub geometry: Option<Rectangle>,
}

/// The layer surfaces of an output, in the order in which they were mapped.
#[derive(Debug)]
pub struct LayerMap {
    pub output: u64,
    pub layers: Vec<LayerSurface>,
}

/// A layer surface and the output that it is on.
#[derive(Clone, Copy, PartialEq, Eq, Structural, Debug)]
pub struct LayerPlace {
    pub output: u64,
    pub layer: u64,
}

/// What a commit of a layer surface leads to: the layers of the output are arranged anew,
/// and the client gets its first configure where it has had none.
#[derive(Clone, Copy, PartialEq, Eq, Structural, Debug)]
pub struct LayerCommit {
    pub place: LayerPlace,
    pub send_configure: bool,
}

/// The layer surface has this name.
pub open spec fn is_layer(id: u64) -> spec_fn(LayerSurface) -> bool {
    |s: LayerSurface| s.id == id
}

/// The layer surface draws on this surface.
pub open spec fn draws_on(surface: u64) -> spec_fn(LayerSurface) -> bool {
    |s: LayerSurface| s.surface == surface
}

/// The output has such a layer surface.
pub open spec fn has_layer(p: spec_fn(LayerSurface) -> bool) -> spec_fn(LayerMap) -> bool {
    |m: LayerMap| first_where(m.layers@, p) is Some
}

/// The first layer surface of the kind, on the first output that has one.
pub open spec fn find_layer(maps: Seq<LayerMap>, p: spec_fn(LayerSurface) -> bool) -> Option<
    LayerPlace,
> {
    match first_where(maps, has_layer(p)) {
        Some(i) => match first_where(maps[i].layers@, p) {
            Some(j) => Some(LayerPlace { output: maps[i].output, layer: maps[i].layers@[j].id }),
            None => None,
        },
        None => None,
    }
}

/// The output for a new layer surface: the one that the client asks for, else the first.
pub open spec fn layer_output_of(requested: Option<u64>, outputs: Seq<Output>) -> Option<u64> {
    match requested {
        Some(id) => Some(id),
        None => if outputs.len() > 0 {
            Some(outputs[0].id)
        } else {
            None
        },
    }
}

/// The client is to get its first configure: its record is there, and says that it has had
/// none.
pub open spec fn needs_configure(initial_configure_sent: Option<bool>) -> bool {
    match initial_configure_sent {
        Some(sent) => !sent,
        None => false,
    }
}

/// Picks the output for a new layer surface; without an output it is not shown.
pub fn new_layer_surface(requested: Option<u64>, projectwc: &ProjectWC) -> (r: Option<u64>)
    ensures
        r == layer_output_of(requested, projectwc.space.outputs@),
{
    match requested {
        Some(id) => Some(id),
        None => if projectwc.space.outputs.len() > 0 {
            Some(projectwc.space.outputs[0].id)
        } else {
            None
        },
    }
}

fn layer_index(map: &LayerMap, id: u64) -> (r: Option<usize>)
    ensures
        match first_where(map.layers@, is_layer(id)) {
            Some(i) => r matches Some(k) && k == i && k < map.layers@.len(),
            None => r is None,
        },
{
    let ghost wanted = is_layer(id);
    let mut i: usize = 0;
    while i < map.layers.len()
        invariant
            i <= map.layers.len(),
            wanted == is_layer(id),
            forall|j: int| 0 <= j < i ==> !wanted(#[trigger] map.layers@[j]),
        decreases map.layers.len() - i,
    {
        if map.layers[i].id == id {
            proof {
                lemma_first_found(map.layers@, wanted, i as int);
            }
            return Some(i);
        }
        i += 1;
    }
    proof {
        lemma_first_missing(map.layers@, wanted);
    }
    None
}

fn surface_index(map: &LayerMap, surface: u64) -> (r: Option<usize>)
    ensures
        match first_where(map.layers@, draws_on(surface)) {
            Some(i) => r matches Some(k) && k == i && k < map.layers@.len(),
            None => r is None,
        },
{
    let ghost wanted = draws_on(surface);
    let mut i: usize = 0;
    while i < map.layers.len()
        invariant
            i <= map.layers.len(),
            wanted == draws_on(surface),
            forall|j: int| 0 <= j < i ==> !wanted(#[trigger] map.layers@[j]),
        decreases map.layers.len() - i,
    {
        if map.layers[i].surface == surface {
            proof {
                lemma_first_found(map.layers@, wanted, i as int);
            }
            return Some(i);
        }
        i += 1;
    }
    proof {
        lemma_first_missing(map.layers@, wanted);
    }
    None
}

/// Finds where a layer surface that is gone has to be unmapped. The layers are those of the
/// mapped outputs, in the order of the outputs.
pub fn layer_destroyed(maps: &Vec<LayerMap>, id: u64) -> (r: Option<LayerPlace>)
    ensures
        r == find_layer(maps@, is_layer(id)),
{
    let ghost wanted = has_layer(is_layer(id));
    let mut i: usize = 0;
    while i < maps.len()
        invariant
            i <= maps.len(),
            wanted == has_layer(is_layer(id)),
            forall|j: int| 0 <= j < i ==> !wanted(#[trigger] maps@[j]),
        decreases maps.len() - i,
    {
        if let Some(k) = layer_index(&maps[i], id) {
            proof {
                lemma_first_found(maps@, wanted, i as int);
            }
            return Some(LayerPlace { output: maps[i].output, layer: maps[i].layers[k].id });
        }
        i += 1;
    }
    proof {
        lemma_first_missing(maps@, wanted);
    }
    None
}

/// Handles a commit of a surface, for the layers of the mapped outputs in their order.
/// `initial_configure_sent` is what the surface's own record says, where it has one.
///
/// Should be called on every commit of a surface.
pub fn handle_commit(
    maps: &Vec<LayerMap>,
    surface: u64,
    initial_configure_sent: Option<bool>,
) -> (r: Option<LayerCommit>)
    ensures
        match find_layer(maps@, draws_on(surface)) {
            Some(place) => r == Some(
                LayerCommit { place, send_configure: initial_configure_sent == Some(false) },
            ),
            None => r is None,
        },
        r matches Some(c) ==> c.send_configure == needs_configure(initial_configure_sent),
{
    let ghost wanted = has_layer(draws_on(surface));
    let mut i: usize = 0;
    while i < maps.len()
        invariant
            i <= maps.len(),
            wanted == has_layer(draws_on(surface)),
            forall|j: int| 0 <= j < i ==> !wanted(#[trigger] maps@[j]),
        decreases maps.len() - i,
    {
        if let Some(k) = surface_index(&maps[i], surface) {
            proof {
                lemma_first_found(maps@, wanted, i as int);
            }
            let place = LayerPlace { output: maps[i].output, layer: maps[i].layers[k].id };
            let sent = match initial_configure_sent {
                Some(sent) => sent,
                None => true,
            };
            return Some(LayerCommit { place, send_configure: !sent });
        }
        i += 1;
    }
    proof {
        lemma_first_missing(maps@, wanted);
    }
    None
}

/// A layer surface is found exactly when some output has it, and the output that is named
/// then has it.
pub proof fn law_layer_search_is_complete(maps: Seq<LayerMap>, p: spec_fn(LayerSurface) -> bool)
    ensures
        match find_layer(maps, p) {
            Some(place) => exists|i: int, j: int|
                {
                    &&& 0 <= i < maps.len()
                    &&& 0 <= j < maps[i].layers@.len()
                    &&& p(#[trigger] maps[i].layers@[j])
                    &&& place == (LayerPlace {
                        output: maps[i].output,
                        layer: maps[i].layers@[j].id,
                    })
                },
            None => forall|i: int, j: int|
                0 <= i < maps.len() && 0 <= j < maps[i].layers@.len() ==> !p(
                    #[trigger] maps[i].layers@[j],
                ),
        },
{
    lemma_first_where(maps, has_layer(p));
    match first_where(maps, has_layer(p)) {
        Some(i) => {
            lemma_first_where(maps[i].layers@, p);
            let j = first_where(maps[i].layers@, p)->Some_0;
            assert(p(maps[i].layers@[j]));
        },
        None => {
            assert forall|i: int, j: int|
                0 <= i < maps.len() && 0 <= j < maps[i].layers@.len() implies !p(
                #[trigger] maps[i].layers@[j],
            ) by {
                assert(!has_layer(p)(maps[i]));
                lemma_first_where(maps[i].layers@, p);
            }
        },
    }
}

/// The layer surface that is found comes before any other of the kind: on an earlier output,
/// or earlier on the same one.
pub proof fn law_layer_search_finds_the_first(
    maps: Seq<LayerMap>,
    p: spec_fn(LayerSurface) -> bool,
    i: int,
    j: int,
)
    requires
        0 <= i < maps.len(),
        0 <= j < maps[i].layers@.len(),
        p(maps[i].layers@[j]),
        forall|m: int, n: int|
            0 <= m < i && 0 <= n < maps[m].layers@.len() ==> !p(#[trigger] maps[m].layers@[n]),
        forall|n: int| 0 <= n < j ==> !p(#[trigger] maps[i].layers@[n]),
    ensures
        find_layer(maps, p) matches Some(place) && place.output == maps[i].output && place.layer
            == maps[i].layers@[j].id,
{
    lemma_first_found(maps[i].layers@, p, j);
    assert forall|m: int| 0 <= m < i implies !has_layer(p)(#[trigger] maps[m]) by {
        lemma_first_missing(maps[m].layers@, p);
    }
    lemma_first_found(maps, has_layer(p), i);
}

/// Looking for a layer surface by its name finds one of that name; looking for it by the
/// surface that it draws on finds one that draws on it. The output that is named has it.
pub proof fn law_found_layer_is_the_one_meant(maps: Seq<LayerMap>, id: u64, surface: u64)
    ensures
        find_layer(maps, is_layer(id)) matches Some(place) ==> place.layer == id && exists|i: int, j: int|
            {
                &&& 0 <= i < maps.len()
                &&& 0 <= j < maps[i].layers@.len()
                &&& maps[i].output == place.output
                &&& (#[trigger] maps[i].layers@[j]).id == id
            },
        find_layer(maps, is_layer(id)) is None ==> forall|i: int, j: int|
            0 <= i < maps.len() && 0 <= j < maps[i].layers@.len() ==> (
            #[trigger] maps[i].layers@[j]).id != id,
        find_layer(maps, draws_on(surface)) matches Some(place) ==> exists|i: int, j: int|
            {
                &&& 0 <= i < maps.len()
                &&& 0 <= j < maps[i].layers@.len()
                &&& maps[i].output == place.output
                &&& (#[trigger] maps[i].layers@[j]).id == place.layer
                &&& maps[i].layers@[j].surface == surface
            },
        find_layer(maps, draws_on(surface)) is None ==> forall|i: int, j: int|
            0 <= i < maps.len() && 0 <= j < maps[i].layers@.len() ==> (
            #[trigger] maps[i].layers@[j]).surface != surface,
{
    law_layer_search_is_complete(maps, is_layer(id));
    law_layer_search_is_complete(maps, draws_on(surface));
    if find_layer(maps, is_layer(id)) is None {
        assert forall|i: int, j: int|
            0 <= i < maps.len() && 0 <= j < maps[i].layers@.len() implies (
        #[trigger] maps[i].layers@[j]).id != id by {
            assert(!is_layer(id)(maps[i].layers@[j]));
        }
    }
    if find_layer(maps, draws_on(surface)) is None {
        assert forall|i: int, j: int|
            0 <= i < maps.len() && 0 <= j < maps[i].layers@.len() implies (
        #[trigger] maps[i].layers@[j]).surface != surface by {
            assert(!draws_on(surface)(maps[i].layers@[j]));
        }
    }
}

/// A new layer surface goes where the client wants it, whatever outputs there are; else on
/// the first output, and nowhere where there is none.
pub proof fn law_layer_goes_where_asked(id: u64, outputs: Seq<Output>)
    ensures
        layer_output_of(Some(id), outputs) == Some(id),
        outputs.len() > 0 ==> layer_output_of(None, outputs) == Some(outputs.first().id),
        outputs.len() == 0 ==> layer_output_of(None, outputs) is None,
{
}

/// A first configure is due exactly once: until it has been sent, and not without a record
/// of it.
pub proof fn law_first_configure_is_sent_once(sent: bool)
    ensures
        needs_configure(Some(sent)) <==> !sent,
        !needs_configure(None),
{
}

} // verus!
