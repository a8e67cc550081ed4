//! What clients get to see: how data look, in which order, and where.

use vstd::prelude::*;
use crate::appearance::{appears, chosen, datums_in, draw_keys, icon_resource, is_drawn,
    layers_appear, listed_datums, total_key, LocalClientAppearance};
use crate::bitwise::ordinal;
use crate::comparing::{lemma_order_is_that_of_units, spells_no_number, units};
use crate::coordinates::Coordinate;
use crate::mirrors::mirror_made;
use crate::number::is_integral;
use crate::ordering::arranged;
use crate::snapshot::{cell_of, control_of, is_snapshot, is_tile, location_in,
    names_control, screen_shown, tiles_shown, LocalClientMapSnapshot, LocalClientMapTile,
    LocalClientScreenAppearance};
use crate::sorting::is_stable_order;
use crate::state::ExecutionState;
use crate::text::before_mark;
use crate::value::{DatumId, FieldName, ListId, Number, Symbol, Value};

verus! {

/// Whether a datum itself stores a number in a field.
pub open spec fn stores(
    state: ExecutionState,
    datum: DatumId,
    name: FieldName,
    number: Number,
) -> bool {
    &&& state.heap@.datums.contains_key(datum)
    &&& state.heap@.datums[datum].fields.contains_key(name)
    &&& state.heap@.datums[datum].fields[name] == Value::Number(number)
}

/// Whether nothing gives a value to a field of a datum.
pub open spec fn lacks(state: ExecutionState, datum: DatumId, name: FieldName) -> bool {
    &&& !state.heap@.datums[datum].fields.contains_key(name)
    &&& state.catalog@.effective_initial_value(state.heap@.datums[datum].type_path, name) is None
}

/// A datum looks as the numbers in its own fields say.
pub proof fn lemma_drawn_as_stored(
    state: ExecutionState,
    datum: DatumId,
    shown: LocalClientAppearance,
    number: Number,
)
    requires
        is_drawn(state, datum, shown),
    ensures
        shown.datum == datum,
        stores(state, datum, state.names.layer, number) ==> shown.layer == number,
        stores(state, datum, state.names.plane, number) ==> shown.plane == number,
        stores(state, datum, state.names.pixel_x, number) ==> shown.pixel_x == number,
        stores(state, datum, state.names.pixel_y, number) ==> shown.pixel_y == number,
        stores(state, datum, state.names.pixel_w, number) ==> shown.pixel_w == number,
        stores(state, datum, state.names.pixel_z, number) ==> shown.pixel_z == number,
        stores(state, datum, state.names.alpha, number) ==> shown.alpha == number,
        stores(state, datum, state.names.maptext_width, number) ==> shown.maptext_width == number,
        stores(state, datum, state.names.maptext_height, number) ==> shown.maptext_height
            == number,
        stores(state, datum, state.names.maptext_x, number) ==> shown.maptext_x == number,
        stores(state, datum, state.names.maptext_y, number) ==> shown.maptext_y == number,
        stores(state, datum, state.names.dir, number) && is_integral(number) && i32::MIN
            <= crate::number::truncated(number) <= i32::MAX ==> shown.dir
            == crate::number::truncated(number),
        stores(state, datum, state.names.appearance_flags, number) && is_integral(number)
            && i32::MIN <= crate::number::truncated(number) <= i32::MAX
            ==> shown.appearance_flags == crate::number::truncated(number),
        stores(state, datum, state.names.mouse_opacity, number) && is_integral(number) && i32::MIN
            <= crate::number::truncated(number) <= i32::MAX ==> shown.mouse_opacity
            == crate::number::truncated(number),
{
}

/// A datum of which nothing says otherwise is drawn in full at the origin.
pub proof fn lemma_drawn_plainly(
    state: ExecutionState,
    datum: DatumId,
    shown: LocalClientAppearance,
)
    requires
        is_drawn(state, datum, shown),
        state.heap@.datums.contains_key(datum),
    ensures
        lacks(state, datum, state.names.layer) ==> shown.layer.bits == 0,
        lacks(state, datum, state.names.plane) ==> shown.plane.bits == 0,
        lacks(state, datum, state.names.pixel_x) ==> shown.pixel_x.bits == 0,
        lacks(state, datum, state.names.pixel_y) ==> shown.pixel_y.bits == 0,
        lacks(state, datum, state.names.color) ==> shown.color is None,
        lacks(state, datum, state.names.icon) ==> shown.icon is None,
        lacks(state, datum, state.names.icon_state) ==> shown.icon_state is None,
        lacks(state, datum, state.names.maptext) ==> shown.maptext is None,
        lacks(state, datum, state.names.alpha) ==> is_integral(shown.alpha)
            && crate::number::truncated(shown.alpha) == 255,
{
    let opaque = Number { bits: 0x437f_0000 };
    vstd::arithmetic::power2::lemma2_to64();
    assert(crate::number::is_finite(opaque) && crate::number::scale(opaque) == -16);
    assert(crate::number::significand(opaque) == 0xff_0000);
    assert(vstd::arithmetic::power2::pow2(16) == 0x1_0000);
    assert(0xff_0000nat % 0x1_0000nat == 0);
    assert(0xff_0000nat / 0x1_0000nat == 255);
}

/// The icon of a datum is the file or text that it names, or what the icon behind it names.
pub proof fn lemma_icons_name_resources(
    state: ExecutionState,
    path: Symbol,
    left: nat,
    icon: DatumId,
)
    requires
        left > 1,
        state.heap@.datums.contains_key(icon),
        state.symbols.spells_under(state.heap@.datums[icon].type_path.0, "/icon"@),
        state.heap@.datums[icon].fields.contains_key(state.names.icon),
        state.heap@.datums[icon].fields[state.names.icon] == Value::File(path),
    ensures
        icon_resource(state, Value::File(path), left) == Some(path),
        icon_resource(state, Value::Text(path), left) == Some(path),
        icon_resource(state, Value::Datum(icon), left) == Some(path),
        icon_resource(state, Value::Null, left) is None,
{
    reveal_with_fuel(icon_resource, 3);
}

proof fn lemma_keys_order_values(a: Number, b: Number)
    requires
        !spells_no_number(a),
        !spells_no_number(b),
        total_key(a) <= total_key(b),
    ensures
        units(a) <= units(b),
{
    lemma_order_is_that_of_units(a, b);
    lemma_order_is_that_of_units(b, a);
    assert(ordinal(a) <= ordinal(b));
}

/// Whether one layer may be drawn before another: on a lower plane, or on the same plane and not
/// above it.
pub open spec fn lies_below(a: LocalClientAppearance, b: LocalClientAppearance) -> bool {
    ||| units(a.plane) < units(b.plane)
    ||| units(a.plane) == units(b.plane) && (a.plane == b.plane ==> units(a.layer) <= units(b.layer))
}

/// Layers are drawn from the lowest plane up, and on one plane from the lowest layer up.
pub proof fn lemma_layers_from_below(
    state: ExecutionState,
    datums: Seq<DatumId>,
    path: Seq<DatumId>,
    left: nat,
    layers: Seq<LocalClientAppearance>,
    i: int,
    j: int,
)
    requires
        layers_appear(state, datums, path, left, layers),
        0 <= i < j < layers.len(),
        !spells_no_number(layers[i].plane) && !spells_no_number(layers[j].plane),
        !spells_no_number(layers[i].layer) && !spells_no_number(layers[j].layer),
    ensures
        lies_below(layers[i], layers[j]),
{
    reveal_with_fuel(layers_appear, 2);
    let picks = choose|picks: Seq<Option<LocalClientAppearance>>| #[trigger]
        crate::appearance::is_layered(picks, layers) && picks.len() == datums.len() && forall|i: int|
            0 <= i < datums.len() ==> appears(state, datums[i], path, left, #[trigger] picks[i]);
    let all = chosen(picks, picks.len());
    let order = choose|order: Seq<usize>| #[trigger]
        is_stable_order(draw_keys(all), order) && layers == arranged(all, order);
    let keys = draw_keys(all);
    assert(crate::sorting::item_before(keys, order[i] as int, order[j] as int));
    assert(layers[i] == all[order[i] as int]);
    assert(layers[j] == all[order[j] as int]);
    let a = layers[i];
    let b = layers[j];
    assert(total_key(a.plane) <= total_key(b.plane));
    lemma_keys_order_values(a.plane, b.plane);
    if a.plane == b.plane {
        assert(total_key(a.layer) <= total_key(b.layer));
        lemma_keys_order_values(a.layer, b.layer);
    }
}

proof fn lemma_all_datums(values: Seq<Value>, count: nat)
    requires
        count <= values.len(),
        forall|i: int| 0 <= i < count ==> (#[trigger] values[i]) is Datum,
    ensures
        datums_in(values, count).len() == count,
        forall|i: int| 0 <= i < count ==> Value::Datum(#[trigger] datums_in(values, count)[i])
            == values[i],
    decreases count,
{
    if count > 0 {
        lemma_all_datums(values, (count - 1) as nat);
        assert(values[count - 1] is Datum);
    }
}

/// The data that a field lists are the items of its list, in order.
pub proof fn lemma_listed_in_order(
    state: ExecutionState,
    datum: DatumId,
    name: FieldName,
    list: ListId,
)
    requires
        state.heap@.datums.contains_key(datum),
        state.heap@.datums[datum].fields.contains_key(name),
        state.heap@.datums[datum].fields[name] == Value::List(list),
        state.heap@.lists.contains_key(list),
        forall|i: int| 0 <= i < state.heap@.lists[list].items.len() ==> (
        #[trigger] state.heap@.lists[list].items[i]) is Datum,
    ensures
        listed_datums(state, datum, name).len() == state.heap@.lists[list].items.len(),
        forall|i: int| 0 <= i < state.heap@.lists[list].items.len() ==> Value::Datum(
            #[trigger] listed_datums(state, datum, name)[i],
        ) == state.heap@.lists[list].items[i],
{
    lemma_all_datums(state.heap@.lists[list].items, state.heap@.lists[list].items.len());
}

/// A tile shows the turf at its place and everything in it, lowest first.
pub proof fn lemma_tile_shows_its_turf(
    state: ExecutionState,
    z: i32,
    tiles: Seq<LocalClientMapTile>,
    at: int,
    list: ListId,
)
    requires
        tiles_shown(state, z, tiles),
        0 <= at < tiles.len(),
    ensures
        state.world.turfs@.contains_key(Coordinate { x: tiles[at].x, y: tiles[at].y, z }),
        ({
            let turf = state.world.turfs@[Coordinate { x: tiles[at].x, y: tiles[at].y, z }];
            &&& state.heap@.datums.contains_key(turf)
            &&& tiles[at].type_path == state.heap@.datums[turf].type_path
            &&& state.heap@.field(turf, state.names.contents) == Some(Value::List(list))
                && state.heap@.lists.contains_key(list) && (forall|i: int|
                0 <= i < state.heap@.lists[list].items.len() ==> (
                #[trigger] state.heap@.lists[list].items[i]) is Datum)
                ==> tiles[at].occupants@.len() == state.heap@.lists[list].items.len() && forall|
                i: int,
            |
                0 <= i < state.heap@.lists[list].items.len() ==> Value::Datum(
                    #[trigger] tiles[at].occupants@[i],
                ) == state.heap@.lists[list].items[i]
        }),
        forall|i: int, j: int|
            0 <= i < j < tiles[at].appearances@.len() && !spells_no_number(
                tiles[at].appearances@[i].plane,
            ) && !spells_no_number(tiles[at].appearances@[j].plane) && !spells_no_number(
                tiles[at].appearances@[i].layer,
            ) && !spells_no_number(tiles[at].appearances@[j].layer) ==> lies_below(
                #[trigger] tiles[at].appearances@[i],
                #[trigger] tiles[at].appearances@[j],
            ),
{
    let cell = Coordinate { x: tiles[at].x, y: tiles[at].y, z };
    assert(cell_of(tiles[at], z) == cell);
    let turf = state.world.turfs@[cell];
    assert(is_tile(state, cell, turf, tiles[at]));
    if state.heap@.field(turf, state.names.contents) == Some(Value::List(list))
        && state.heap@.lists.contains_key(list) && (forall|i: int|
        0 <= i < state.heap@.lists[list].items.len() ==> (
        #[trigger] state.heap@.lists[list].items[i]) is Datum) {
        lemma_listed_in_order(state, turf, state.names.contents, list);
    }
    assert forall|i: int, j: int|
        0 <= i < j < tiles[at].appearances@.len() && !spells_no_number(
            tiles[at].appearances@[i].plane,
        ) && !spells_no_number(tiles[at].appearances@[j].plane) && !spells_no_number(
            tiles[at].appearances@[i].layer,
        ) && !spells_no_number(tiles[at].appearances@[j].layer) implies lies_below(
        #[trigger] tiles[at].appearances@[i],
        #[trigger] tiles[at].appearances@[j],
    ) by {
        lemma_layers_from_below(
            state,
            seq![turf] + tiles[at].occupants@,
            Seq::empty(),
            crate::appearance::LAYER_DEPTH as nat,
            tiles[at].appearances@,
            i,
            j,
        );
    }
}

/// A snapshot has every turf of its level and no other cell, each once, row by row.
pub proof fn lemma_snapshot_shows_its_level(
    state: ExecutionState,
    client: Option<DatumId>,
    z: i32,
    snapshot: LocalClientMapSnapshot,
    cell: Coordinate,
)
    requires
        is_snapshot(state, client, z, snapshot),
        state.world.turfs@.contains_key(cell),
        state.heap@.datums.contains_key(state.world.turfs@[cell]),
    ensures
        cell.z == z <==> exists|i: int| 0 <= i < snapshot.tiles@.len() && (
        #[trigger] snapshot.tiles@[i]).x == cell.x && snapshot.tiles@[i].y == cell.y && snapshot.z
            == cell.z,
        cell.z == z ==> cell.x <= snapshot.width && cell.y <= snapshot.height,
        forall|i: int, j: int|
            0 <= i < j < snapshot.tiles@.len() ==> (#[trigger] snapshot.tiles@[i]).y < (
            #[trigger] snapshot.tiles@[j]).y || snapshot.tiles@[i].y == snapshot.tiles@[j].y
                && snapshot.tiles@[i].x < snapshot.tiles@[j].x,
{
    let tiles = snapshot.tiles@;
    if cell.z == z {
        assert(crate::snapshot::is_shown_cell(state, z, cell));
        assert(crate::snapshot::shows_cell(tiles, z, cell));
        let i = choose|i: int| 0 <= i < tiles.len() && cell_of(#[trigger] tiles[i], z) == cell;
        assert(tiles[i].x == cell.x && tiles[i].y == cell.y);
    }
    assert forall|i: int, j: int| 0 <= i < j < tiles.len() implies (#[trigger] tiles[i]).y < (
    #[trigger] tiles[j]).y || tiles[i].y == tiles[j].y && tiles[i].x < tiles[j].x by {
        assert(crate::snapshot::tile_before(tiles[i], tiles[j]));
    }
}

/// A screen shows each listed datum that looks like anything at most once, from below.
pub proof fn lemma_screen_from_below(
    state: ExecutionState,
    client: Option<DatumId>,
    screen: Seq<LocalClientScreenAppearance>,
    i: int,
    j: int,
)
    requires
        screen_shown(state, client, screen),
        0 <= i < j < screen.len(),
        !spells_no_number(screen[i].appearance.plane) && !spells_no_number(
            screen[j].appearance.plane,
        ),
        !spells_no_number(screen[i].appearance.layer) && !spells_no_number(
            screen[j].appearance.layer,
        ),
    ensures
        lies_below(screen[i].appearance, screen[j].appearance),
{
    let (entries, order) = choose|
        entries: Seq<LocalClientScreenAppearance>,
        order: Seq<usize>,
    |
        #![trigger is_stable_order(crate::snapshot::screen_keys(entries), order)]
        is_stable_order(crate::snapshot::screen_keys(entries), order) && screen == arranged(
            entries,
            order,
        );
    let keys = crate::snapshot::screen_keys(entries);
    assert(crate::sorting::item_before(keys, order[i] as int, order[j] as int));
    assert(screen[i] == entries[order[i] as int]);
    assert(screen[j] == entries[order[j] as int]);
    let a = screen[i].appearance;
    let b = screen[j].appearance;
    assert(total_key(a.plane) <= total_key(b.plane));
    lemma_keys_order_values(a.plane, b.plane);
    if a.plane == b.plane {
        assert(total_key(a.layer) <= total_key(b.layer));
        lemma_keys_order_values(a.layer, b.layer);
    }
}

proof fn lemma_mark_splits(front: Seq<char>, mark: char, back: Seq<char>)
    requires
        !front.contains(mark),
    ensures
        before_mark(front.push(mark) + back, mark) == front,
        before_mark(front, mark) == front,
    decreases front.len(),
{
    let text = front.push(mark) + back;
    if front.len() == 0 {
        assert(before_mark(text, mark) =~= front);
        assert(before_mark(front, mark) =~= front);
    } else {
        let rest = front.subrange(1, front.len() as int);
        assert(front.contains(front[0]));
        assert(!rest.contains(mark)) by {
            if rest.contains(mark) {
                let i = choose|i: int| 0 <= i < rest.len() && rest[i] == mark;
                assert(front[i + 1] == mark);
            }
        }
        lemma_mark_splits(rest, mark, back);
        assert(text.subrange(1, text.len() as int) =~= rest.push(mark) + back);
        assert(seq![front[0]] + rest =~= front);
    }
}

pub(crate) proof fn lemma_unmarked_is_whole(text: Seq<char>, mark: char)
    requires
        !text.contains(mark),
    ensures
        before_mark(text, mark) == text,
{
    lemma_mark_splits(text, mark, Seq::empty());
}

/// The name of a map control before a colon is cut off a place on the screen; a place without a
/// colon stands for itself.
pub proof fn lemma_screen_place_names_its_control(control: Seq<char>, place: Seq<char>)
    requires
        !control.contains(':'),
    ensures
        names_control(control) && place.contains(',') ==> control_of(control.push(':') + place)
            == Some(control) && location_in(control.push(':') + place) == place,
        !names_control(control) || !place.contains(',') ==> control_of(
            control.push(':') + place,
        ) is None && location_in(control.push(':') + place) == control.push(':') + place,
        control_of(control) is None,
        location_in(control) == control,
{
    lemma_mark_splits(control, ':', place);
    let text = control.push(':') + place;
    assert(text.subrange(control.len() as int + 1, text.len() as int) =~= place);
}

/// The mirror of a datum's `vars` shows what the datum itself stores.
pub proof fn lemma_mirror_shows_stored_members(
    before: ExecutionState,
    datum: DatumId,
    list: ListId,
    after: ExecutionState,
    name: Symbol,
)
    requires
        mirror_made(before, datum, list, after),
        before.heap@.datums.contains_key(datum),
        before.heap@.datums[datum].fields.contains_key(FieldName(name)),
        before.catalog@.shared_storage(
            before.heap@.datums[datum].type_path,
            FieldName(name),
        ) is None,
    ensures
        after.heap@.lists[list].associated.contains_key(Value::Text(name)),
        after.heap@.lists[list].associated[Value::Text(name)]
            == before.heap@.datums[datum].fields[FieldName(name)],
        after.heap@.lists[list].items.contains(Value::Text(name)),
        after.lists.datum_vars@[list.0] == datum,
        after.heap@.datums == before.heap@.datums,
{
    let shown = crate::mirrors::all_shown(before, datum);
    assert(crate::mirrors::shown(before, datum, name) is Some);
    assert(crate::mirrors::held_text(shown, Value::Text(name)) == Some(
        before.heap@.datums[datum].fields[FieldName(name)],
    ));
    assert(crate::mirrors::held(after.heap@.lists[list].associated, Value::Text(name)) is Some);
}

} // verus!
