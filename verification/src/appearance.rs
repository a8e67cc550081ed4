//! How datums look to a client: their own fields and the layers above and below.

use vstd::prelude::*;
use crate::geometry::field_or_initial;
use crate::number::{fraction_bits, is_finite, is_negative, saturated_i32, truncated};
use crate::ordering::{arranged, permuted};
use crate::sorting::{is_stable_order, stable_order, SortKey};
use crate::state::ExecutionState;
use crate::tasks::lemma_order_distinct;
use crate::value::{DatumId, FieldName, Number, Symbol, TypePath, Value};

verus! {

/// How deep layers nest before they are cut off.
pub const LAYER_DEPTH: usize = 16;

/// How deep icons back one another before they are given up.
pub const ICON_DEPTH: usize = 16;

/// How one datum looks. Texts that need formatting are given as values.
pub struct LocalClientAppearance {
    pub datum: DatumId,
    pub type_path: TypePath,
    pub icon: Option<Symbol>,
    pub icon_state: Option<Value>,
    pub dir: i32,
    pub layer: Number,
    pub plane: Number,
    pub appearance_flags: i32,
    pub mouse_opacity: i32,
    pub pixel_x: Number,
    pub pixel_y: Number,
    pub pixel_w: Number,
    pub pixel_z: Number,
    pub color: Option<Value>,
    pub alpha: Number,
    pub maptext: Option<Value>,
    pub maptext_width: Number,
    pub maptext_height: Number,
    pub maptext_x: Number,
    pub maptext_y: Number,
    pub underlays: Vec<LocalClientAppearance>,
    pub overlays: Vec<LocalClientAppearance>,
}

/// A number's place in the total order of numbers: below zero downwards, then
/// zero and above, and beyond the infinities what is not a number.
pub open spec fn total_key(number: Number) -> int {
    if number.bits < 0x8000_0000 {
        number.bits as int
    } else {
        0x8000_0000 - number.bits - 1
    }
}

/// By what appearances are drawn: the plane, and on one plane the layer.
pub open spec fn draw_key(plane: Number, layer: Number) -> SortKey {
    SortKey { major: total_key(plane) as i128, minor: total_key(layer) as i128 }
}

/// Computes a drawing key.
pub fn key_of(plane: Number, layer: Number) -> (key: SortKey)
    ensures
        key == draw_key(plane, layer),
{
    SortKey { major: number_key(plane), minor: number_key(layer) }
}

fn number_key(number: Number) -> (key: i128)
    ensures
        key == total_key(number),
{
    if number.bits < 0x8000_0000 {
        number.bits as i128
    } else {
        0x8000_0000 - (number.bits as i128) - 1
    }
}

/// The drawing keys of appearances.
pub open spec fn draw_keys(layers: Seq<LocalClientAppearance>) -> Seq<SortKey> {
    layers.map_values(|layer: LocalClientAppearance| draw_key(layer.plane, layer.layer))
}

/// The datums among the first values, in order.
pub open spec fn datums_in(values: Seq<Value>, count: nat) -> Seq<DatumId>
    decreases count,
{
    if count == 0 {
        Seq::empty()
    } else {
        let rest = datums_in(values, (count - 1) as nat);
        match values[count - 1] {
            Value::Datum(id) => rest.push(id),
            _ => rest,
        }
    }
}

/// The datums that a field lists.
pub open spec fn listed_datums(state: ExecutionState, datum: DatumId, name: FieldName) -> Seq<
    DatumId,
> {
    match field_or_initial(state.heap@, state.catalog@, datum, name) {
        Some(Value::List(list)) if state.heap@.lists.contains_key(list) => datums_in(
            state.heap@.lists[list].items,
            state.heap@.lists[list].items.len(),
        ),
        _ => Seq::empty(),
    }
}

/// The datums that a field layers: those that it lists, or the one that it is.
pub open spec fn layered_datums(state: ExecutionState, datum: DatumId, name: FieldName) -> Seq<
    DatumId,
> {
    match field_or_initial(state.heap@, state.catalog@, datum, name) {
        Some(Value::Datum(only)) => seq![only],
        _ => listed_datums(state, datum, name),
    }
}

/// The appearances among the first choices, in order.
pub open spec fn chosen(picks: Seq<Option<LocalClientAppearance>>, count: nat) -> Seq<
    LocalClientAppearance,
>
    decreases count,
{
    if count == 0 {
        Seq::empty()
    } else {
        let rest = chosen(picks, (count - 1) as nat);
        match picks[count - 1] {
            Some(layer) => rest.push(layer),
            None => rest,
        }
    }
}

/// Whether layers are what was chosen, in drawing order.
pub open spec fn is_layered(
    picks: Seq<Option<LocalClientAppearance>>,
    layers: Seq<LocalClientAppearance>,
) -> bool {
    exists|order: Seq<usize>| #[trigger]
        is_stable_order(draw_keys(chosen(picks, picks.len())), order) && layers == arranged(
            chosen(picks, picks.len()),
            order,
        )
}

/// A field's number, or a fallback.
pub open spec fn number_or(
    state: ExecutionState,
    datum: DatumId,
    name: FieldName,
    fallback: Number,
) -> Number {
    match field_or_initial(state.heap@, state.catalog@, datum, name) {
        Some(Value::Number(number)) => number,
        _ => fallback,
    }
}

/// A field's value, unless it is null.
pub open spec fn value_or_none(state: ExecutionState, datum: DatumId, name: FieldName) -> Option<
    Value,
> {
    match field_or_initial(state.heap@, state.catalog@, datum, name) {
        Some(Value::Null) => None,
        other => other,
    }
}

/// A number without its fraction, held to the range of 32 bits; zero for what is
/// not a number.
pub open spec fn whole(number: Number) -> int {
    if is_finite(number) {
        saturated_i32(truncated(number))
    } else if fraction_bits(number) != 0 {
        0
    } else if is_negative(number) {
        i32::MIN as int
    } else {
        i32::MAX as int
    }
}

/// The resource behind an icon value: an icon datum stands for what backs it.
pub open spec fn icon_resource(state: ExecutionState, value: Value, left: nat) -> Option<Symbol>
    decreases left,
{
    if left == 0 {
        None
    } else {
        match value {
            Value::File(path) => Some(path),
            Value::Text(path) => Some(path),
            Value::Datum(icon) if state.heap@.datums.contains_key(icon)
                && state.symbols.spells_under(state.heap@.datums[icon].type_path.0, "/icon"@) =>
                match field_or_initial(state.heap@, state.catalog@, icon, state.names.icon) {
                    Some(backing) => icon_resource(state, backing, (left - 1) as nat),
                    None => None,
                },
            _ => None,
        }
    }
}

/// The bits of the number two.
pub open spec fn two() -> Number {
    Number { bits: 0x4000_0000 }
}

/// The bits of the number one.
pub open spec fn one() -> Number {
    Number { bits: 0x3f80_0000 }
}

/// The bits of the number 255.
pub open spec fn opaque_alpha() -> Number {
    Number { bits: 0x437f_0000 }
}

/// The bits of the number zero.
pub open spec fn zero() -> Number {
    Number { bits: 0 }
}

/// Whether an appearance shows a datum's own fields.
pub open spec fn is_drawn(state: ExecutionState, datum: DatumId, shown: LocalClientAppearance) -> bool {
    let names = state.names;
    &&& shown.datum == datum
    &&& shown.type_path == state.heap@.datums[datum].type_path
    &&& shown.icon == match field_or_initial(state.heap@, state.catalog@, datum, names.icon) {
        Some(value) => icon_resource(state, value, ICON_DEPTH as nat),
        None => None,
    }
    &&& shown.icon_state == value_or_none(state, datum, names.icon_state)
    &&& shown.dir == whole(number_or(state, datum, names.dir, two()))
    &&& shown.layer == number_or(state, datum, names.layer, zero())
    &&& shown.plane == number_or(state, datum, names.plane, zero())
    &&& shown.appearance_flags == whole(number_or(state, datum, names.appearance_flags, zero()))
    &&& shown.mouse_opacity == whole(number_or(state, datum, names.mouse_opacity, one()))
    &&& shown.pixel_x == number_or(state, datum, names.pixel_x, zero())
    &&& shown.pixel_y == number_or(state, datum, names.pixel_y, zero())
    &&& shown.pixel_w == number_or(state, datum, names.pixel_w, zero())
    &&& shown.pixel_z == number_or(state, datum, names.pixel_z, zero())
    &&& shown.color == value_or_none(state, datum, names.color)
    &&& shown.alpha == number_or(state, datum, names.alpha, opaque_alpha())
    &&& shown.maptext == value_or_none(state, datum, names.maptext)
    &&& shown.maptext_width == number_or(state, datum, names.maptext_width, zero())
    &&& shown.maptext_height == number_or(state, datum, names.maptext_height, zero())
    &&& shown.maptext_x == number_or(state, datum, names.maptext_x, zero())
    &&& shown.maptext_y == number_or(state, datum, names.maptext_y, zero())
}

/// Whether `shown` is how a datum looks below the datums of `path`, with `left`
/// levels to go. A stale datum, one below itself and one too deep are not shown.
pub open spec fn appears(
    state: ExecutionState,
    datum: DatumId,
    path: Seq<DatumId>,
    left: nat,
    shown: Option<LocalClientAppearance>,
) -> bool
    decreases left, 0int,
{
    if left == 0 || path.contains(datum) || !state.heap@.datums.contains_key(datum) {
        shown is None
    } else {
        match shown {
            Some(shown) => {
                &&& is_drawn(state, datum, shown)
                &&& layers_appear(
                    state,
                    layered_datums(state, datum, state.names.underlays),
                    path.push(datum),
                    (left - 1) as nat,
                    shown.underlays@,
                )
                &&& layers_appear(
                    state,
                    layered_datums(state, datum, state.names.overlays),
                    path.push(datum),
                    (left - 1) as nat,
                    shown.overlays@,
                )
            },
            None => false,
        }
    }
}

/// Whether `layers` is how datums look together, in drawing order; what is drawn
/// alike keeps its order.
pub open spec fn layers_appear(
    state: ExecutionState,
    datums: Seq<DatumId>,
    path: Seq<DatumId>,
    left: nat,
    layers: Seq<LocalClientAppearance>,
) -> bool
    decreases left, 1int,
{
    exists|picks: Seq<Option<LocalClientAppearance>>| #[trigger]
        is_layered(picks, layers) && picks.len() == datums.len() && forall|i: int|
            0 <= i < datums.len() ==> appears(state, datums[i], path, left, #[trigger] picks[i])
}

impl ExecutionState {
    /// A field's number, or a fallback.
    fn field_number_or(&self, datum: DatumId, name: FieldName, fallback: Number) -> (number: Number)
        ensures
            number == number_or(*self, datum, name, fallback),
    {
        match self.datum_field_or_initial(datum, name) {
            Ok(Value::Number(number)) => number,
            _ => fallback,
        }
    }

    /// A field's value, unless it is null.
    pub fn field_value_or_none(&self, datum: DatumId, name: FieldName) -> (value: Option<Value>)
        ensures
            value == value_or_none(*self, datum, name),
    {
        match self.datum_field_or_initial(datum, name) {
            Ok(Value::Null) => None,
            Ok(value) => Some(value),
            Err(_) => None,
        }
    }

    /// The datums that a field lists.
    pub fn field_datums(&self, datum: DatumId, name: FieldName) -> (datums: Vec<DatumId>)
        ensures
            datums@ == listed_datums(*self, datum, name),
    {
        let mut datums: Vec<DatumId> = Vec::new();
        let list = match self.datum_field_or_initial(datum, name) {
            Ok(Value::List(list)) => list,
            _ => {
                return datums;
            },
        };
        if let Ok(values) = self.heap.list(list) {
            let count: usize = values.len();
            let mut at: usize = 0;
            while at < count
                invariant
                    at <= count == values@.items.len(),
                    datums@ == datums_in(values@.items, at as nat),
                decreases count - at,
            {
                if let Value::Datum(id) = values.item(at) {
                    datums.push(id);
                }
                at += 1;
            }
        }
        datums
    }

    /// The resource behind an icon value.
    pub fn local_client_icon_resource(&self, value: Value) -> (resource: Option<Symbol>)
        ensures
            resource == icon_resource(*self, value, ICON_DEPTH as nat),
    {
        let mut left: usize = ICON_DEPTH;
        let mut current = value;
        while left > 0
            invariant
                left <= ICON_DEPTH,
                icon_resource(*self, value, ICON_DEPTH as nat) == icon_resource(
                    *self,
                    current,
                    left as nat,
                ),
            decreases left,
        {
            match current {
                Value::File(path) => {
                    return Some(path);
                },
                Value::Text(path) => {
                    return Some(path);
                },
                Value::Datum(icon) => {
                    let below: bool = match self.heap.datum(icon) {
                        Ok(datum) => self.symbols.is_under(datum.type_path().0, "/icon"),
                        Err(_) => false,
                    };
                    if !below {
                        return None;
                    }
                    match self.datum_field_or_initial(icon, self.names.icon) {
                        Ok(backing) => {
                            current = backing;
                        },
                        Err(_) => {
                            return None;
                        },
                    }
                },
                _ => {
                    return None;
                },
            }
            left = left - 1;
        }
        None
    }

    /// How a datum looks.
    pub fn local_client_appearance(&self, datum: DatumId) -> (shown: Option<LocalClientAppearance>)
        ensures
            appears(*self, datum, Seq::empty(), LAYER_DEPTH as nat, shown),
    {
        let mut path: Vec<DatumId> = Vec::new();
        assert(path@ =~= Seq::<DatumId>::empty());
        self.appearance_below(datum, &mut path, LAYER_DEPTH)
    }

    fn appearance_below(&self, datum: DatumId, path: &mut Vec<DatumId>, left: usize) -> (shown:
        Option<LocalClientAppearance>)
        ensures
            appears(*self, datum, old(path)@, left as nat, shown),
            final(path)@ == old(path)@,
        decreases left, 0int,
    {
        if left == 0 {
            return None;
        }
        let count: usize = path.len();
        let mut at: usize = 0;
        while at < count
            invariant
                at <= count == path@.len(),
                path@ == old(path)@,
                forall|i: int| 0 <= i < at ==> #[trigger] path@[i] != datum,
            decreases count - at,
        {
            if path[at] == datum {
                assert(old(path)@.contains(datum));
                return None;
            }
            at += 1;
        }
        assert(!path@.contains(datum));
        let type_path = match self.heap.datum(datum) {
            Ok(found) => found.type_path(),
            Err(_) => {
                return None;
            },
        };
        let zero = Number { bits: 0 };
        let icon = match self.datum_field_or_initial(datum, self.names.icon) {
            Ok(value) => self.local_client_icon_resource(value),
            Err(_) => None,
        };
        let ghost outer = path@;
        path.push(datum);
        let below = self.layered(datum, self.names.underlays);
        let underlays = self.layers_below(&below, path, left - 1);
        let above = self.layered(datum, self.names.overlays);
        let overlays = self.layers_below(&above, path, left - 1);
        let _ = path.pop();
        assert(path@ =~= outer);
        let names = &self.names;
        let shown = LocalClientAppearance {
            datum,
            type_path,
            icon,
            icon_state: self.field_value_or_none(datum, names.icon_state),
            dir: self.field_number_or(datum, names.dir, Number { bits: 0x4000_0000 }).truncate_i32(),
            layer: self.field_number_or(datum, names.layer, zero),
            plane: self.field_number_or(datum, names.plane, zero),
            appearance_flags: self.field_number_or(
                datum,
                names.appearance_flags,
                zero,
            ).truncate_i32(),
            mouse_opacity: self.field_number_or(
                datum,
                names.mouse_opacity,
                Number { bits: 0x3f80_0000 },
            ).truncate_i32(),
            pixel_x: self.field_number_or(datum, names.pixel_x, zero),
            pixel_y: self.field_number_or(datum, names.pixel_y, zero),
            pixel_w: self.field_number_or(datum, names.pixel_w, zero),
            pixel_z: self.field_number_or(datum, names.pixel_z, zero),
            color: self.field_value_or_none(datum, names.color),
            alpha: self.field_number_or(datum, names.alpha, Number { bits: 0x437f_0000 }),
            maptext: self.field_value_or_none(datum, names.maptext),
            maptext_width: self.field_number_or(datum, names.maptext_width, zero),
            maptext_height: self.field_number_or(datum, names.maptext_height, zero),
            maptext_x: self.field_number_or(datum, names.maptext_x, zero),
            maptext_y: self.field_number_or(datum, names.maptext_y, zero),
            underlays,
            overlays,
        };
        assert(is_drawn(*self, datum, shown));
        Some(shown)
    }

    /// The datums that a field layers.
    fn layered(&self, datum: DatumId, name: FieldName) -> (datums: Vec<DatumId>)
        ensures
            datums@ == layered_datums(*self, datum, name),
    {
        match self.datum_field_or_initial(datum, name) {
            Ok(Value::Datum(only)) => vec![only],
            _ => self.field_datums(datum, name),
        }
    }

    /// How datums look together below the datums of a path.
    fn layers_below(&self, datums: &Vec<DatumId>, path: &mut Vec<DatumId>, left: usize) -> (layers:
        Vec<LocalClientAppearance>)
        ensures
            layers_appear(*self, datums@, old(path)@, left as nat, layers@),
            final(path)@ == old(path)@,
        decreases left, 1int,
    {
        let mut found: Vec<LocalClientAppearance> = Vec::new();
        let mut keys: Vec<SortKey> = Vec::new();
        let ghost mut picks: Seq<Option<LocalClientAppearance>> = Seq::empty();
        let mut at: usize = 0;
        while at < datums.len()
            invariant
                at <= datums@.len(),
                path@ == old(path)@,
                picks.len() == at,
                found@ == chosen(picks, at as nat),
                keys@ == draw_keys(found@),
                forall|i: int|
                    0 <= i < at ==> appears(
                        *self,
                        datums@[i],
                        old(path)@,
                        left as nat,
                        #[trigger] picks[i],
                    ),
            decreases datums@.len() - at,
        {
            let shown = self.appearance_below(datums[at], path, left);
            proof {
                let longer = picks.push(shown);
                lemma_chosen_prefix(picks, longer, at as nat);
                picks = longer;
            }
            if let Some(layer) = shown {
                keys.push(key_of(layer.plane, layer.layer));
                found.push(layer);
            }
            assert(keys@ =~= draw_keys(found@));
            at += 1;
        }
        let order = stable_order(&keys);
        proof {
            lemma_order_distinct(keys@, order@);
        }
        let layers = permuted(found, &order);
        assert(is_layered(picks, layers@));
        layers
    }

    /// How datums look together.
    pub fn local_client_layers(&self, datums: &Vec<DatumId>) -> (layers: Vec<
        LocalClientAppearance,
    >)
        ensures
            layers_appear(*self, datums@, Seq::empty(), LAYER_DEPTH as nat, layers@),
    {
        let mut path: Vec<DatumId> = Vec::new();
        assert(path@ =~= Seq::<DatumId>::empty());
        self.layers_below(datums, &mut path, LAYER_DEPTH)
    }
}

proof fn lemma_chosen_prefix(
    short: Seq<Option<LocalClientAppearance>>,
    long: Seq<Option<LocalClientAppearance>>,
    count: nat,
)
    requires
        count <= short.len(),
        short.is_prefix_of(long),
    ensures
        chosen(short, count) == chosen(long, count),
    decreases count,
{
    if count > 0 {
        lemma_chosen_prefix(short, long, (count - 1) as nat);
    }
}

/// A datum that layers itself is shown once: its own layer is cut off.
pub proof fn lemma_own_layer_is_cut(
    state: ExecutionState,
    datum: DatumId,
    path: Seq<DatumId>,
    left: nat,
    shown: Option<LocalClientAppearance>,
)
    requires
        appears(state, datum, path.push(datum), left, shown),
    ensures
        shown is None,
{
    assert(path.push(datum).last() == datum);
}

} // verus!
