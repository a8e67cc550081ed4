//! What a client is shown of one level of the map, and what is on its screen.

use vstd::prelude::*;
use crate::appearance::{
    appears,
    draw_key,
    key_of,
    layers_appear,
    listed_datums,
    value_or_none,
    LocalClientAppearance,
    LAYER_DEPTH,
};
use crate::coordinates::{coordinate_before, Coordinate};
use crate::geometry::field_or_initial;
use crate::ordering::{arranged, permuted};
use crate::sorting::{is_stable_order, item_before, stable_order, SortKey};
use crate::state::ExecutionState;
use crate::symbols::SymbolTable;
use crate::tasks::lemma_order_distinct;
use crate::text::{before_mark, chars_of, range_of, string_of, up_to_mark};
use crate::value::{DatumId, TypePath, Value};

verus! {

/// One cell of a level.
pub struct LocalClientMapTile {
    pub x: i32,
    pub y: i32,
    pub type_path: TypePath,
    pub color: Option<Value>,
    pub occupants: Vec<DatumId>,
    pub appearances: Vec<LocalClientAppearance>,
}

/// Where something is on the screen: a text, or a value that needs formatting
/// before it can be split.
pub enum ScreenLocation {
    Text(String),
    Other(Value),
}

/// Something on a client's screen.
pub struct LocalClientScreenAppearance {
    pub map_control: Option<String>,
    pub screen_loc: ScreenLocation,
    pub insertion: usize,
    pub appearance: LocalClientAppearance,
}

/// One level of the map with a client's screen.
pub struct LocalClientMapSnapshot {
    pub width: i32,
    pub height: i32,
    pub z: i32,
    pub tiles: Vec<LocalClientMapTile>,
    pub screen: Vec<LocalClientScreenAppearance>,
}

/// Whether a character may stand in the name of a map control.
pub open spec fn is_control_char(c: char) -> bool {
    ('a' <= c <= 'z') || ('A' <= c <= 'Z') || ('0' <= c <= '9') || c == '_' || c == '-'
}

/// An ASCII letter in upper case; other characters as they are.
pub open spec fn raised(c: char) -> char {
    if 'a' <= c <= 'z' {
        ((c as u32 - 32) as u32) as char
    } else {
        c
    }
}

/// A text in upper case.
pub open spec fn raised_text(text: Seq<char>) -> Seq<char> {
    text.map_values(|c: char| raised(c))
}

/// The words that anchor a place on the screen.
pub open spec fn anchors() -> Seq<Seq<char>> {
    seq![
        "TOP"@,
        "BOTTOM"@,
        "NORTH"@,
        "SOUTH"@,
        "LEFT"@,
        "RIGHT"@,
        "EAST"@,
        "WEST"@,
        "CENTER"@,
    ]
}

/// Whether a text names a map control rather than an anchor.
pub open spec fn names_control(text: Seq<char>) -> bool {
    &&& text.len() > 0
    &&& forall|i: int| 0 <= i < text.len() ==> is_control_char(#[trigger] text[i])
    &&& !anchors().contains(raised_text(text))
}

/// What follows the first colon.
pub open spec fn after_colon(text: Seq<char>) -> Seq<char> {
    text.subrange(before_mark(text, ':').len() as int + 1, text.len() as int)
}

/// Whether a screen location begins with the name of a map control.
pub open spec fn has_control(text: Seq<char>) -> bool {
    &&& before_mark(text, ':').len() < text.len()
    &&& names_control(before_mark(text, ':'))
    &&& after_colon(text).contains(',')
}

/// The map control that a screen location names.
pub open spec fn control_of(text: Seq<char>) -> Option<Seq<char>> {
    if has_control(text) {
        Some(before_mark(text, ':'))
    } else {
        None
    }
}

/// A screen location without the map control.
pub open spec fn location_in(text: Seq<char>) -> Seq<char> {
    if has_control(text) {
        after_colon(text)
    } else {
        text
    }
}

/// The characters of an optional text.
pub open spec fn optional_text(text: Option<String>) -> Option<Seq<char>> {
    match text {
        Some(text) => Some(text@),
        None => None,
    }
}

proof fn lemma_before_mark(text: Seq<char>, mark: char)
    ensures
        before_mark(text, mark).len() <= text.len(),
    decreases text.len(),
{
    if text.len() > 0 && text[0] != mark {
        lemma_before_mark(text.subrange(1, text.len() as int), mark);
    }
}

fn raise(c: char) -> (upper: char)
    ensures
        upper == raised(c),
{
    match c {
        'a' => 'A',
        'b' => 'B',
        'c' => 'C',
        'd' => 'D',
        'e' => 'E',
        'f' => 'F',
        'g' => 'G',
        'h' => 'H',
        'i' => 'I',
        'j' => 'J',
        'k' => 'K',
        'l' => 'L',
        'm' => 'M',
        'n' => 'N',
        'o' => 'O',
        'p' => 'P',
        'q' => 'Q',
        'r' => 'R',
        's' => 'S',
        't' => 'T',
        'u' => 'U',
        'v' => 'V',
        'w' => 'W',
        'x' => 'X',
        'y' => 'Y',
        'z' => 'Z',
        _ => c,
    }
}

/// Whether a text in upper case is a given word.
fn spells_word(text: &Vec<char>, word: &str) -> (same: bool)
    ensures
        same == (text@ == word@),
{
    let other = chars_of(word);
    if text.len() != other.len() {
        return false;
    }
    let mut at: usize = 0;
    while at < text.len()
        invariant
            at <= text@.len() == other@.len(),
            other@ == word@,
            forall|i: int| 0 <= i < at ==> #[trigger] text@[i] == other@[i],
        decreases text@.len() - at,
    {
        if text[at] != other[at] {
            return false;
        }
        at += 1;
    }
    assert(text@ =~= other@);
    true
}

fn is_anchor(text: &Vec<char>) -> (anchor: bool)
    ensures
        anchor == anchors().contains(text@),
{
    let anchor: bool = spells_word(text, "TOP") || spells_word(text, "BOTTOM") || spells_word(
        text,
        "NORTH",
    ) || spells_word(text, "SOUTH") || spells_word(text, "LEFT") || spells_word(text, "RIGHT")
        || spells_word(text, "EAST") || spells_word(text, "WEST") || spells_word(text, "CENTER");
    proof {
        let words = anchors();
        assert(words[0] == "TOP"@ && words[1] == "BOTTOM"@ && words[2] == "NORTH"@ && words[3]
            == "SOUTH"@ && words[4] == "LEFT"@ && words[5] == "RIGHT"@ && words[6] == "EAST"@
            && words[7] == "WEST"@ && words[8] == "CENTER"@ && words.len() == 9);
    }
    anchor
}

fn is_control_name(text: &Vec<char>) -> (named: bool)
    ensures
        named == names_control(text@),
{
    if text.len() == 0 {
        return false;
    }
    let mut upper: Vec<char> = Vec::new();
    let mut at: usize = 0;
    while at < text.len()
        invariant
            at <= text@.len(),
            upper@ == raised_text(text@.subrange(0, at as int)),
            forall|i: int| 0 <= i < at ==> is_control_char(#[trigger] text@[i]),
        decreases text@.len() - at,
    {
        let c = text[at];
        if !(('a' <= c && c <= 'z') || ('A' <= c && c <= 'Z') || ('0' <= c && c <= '9') || c == '_'
            || c == '-') {
            assert(!is_control_char(text@[at as int]));
            return false;
        }
        upper.push(raise(c));
        at += 1;
        assert(upper@ =~= raised_text(text@.subrange(0, at as int)));
    }
    assert(text@.subrange(0, at as int) =~= text@);
    !is_anchor(&upper)
}

/// Splits a screen location at the map control that it names.
pub fn split_screen_loc(text: &Vec<char>) -> (parts: (Option<String>, String))
    ensures
        optional_text(parts.0) == control_of(text@),
        parts.1@ == location_in(text@),
{
    let head = up_to_mark(text, ':');
    let count: usize = text.len();
    proof {
        lemma_before_mark(text@, ':');
    }
    if head.len() < count && is_control_name(&head) {
        let tail = range_of(text, head.len() + 1, count);
        assert(tail@ == after_colon(text@));
        let mut at: usize = 0;
        while at < tail.len()
            invariant
                at <= tail@.len(),
                tail@ == after_colon(text@),
                head@ == before_mark(text@, ':'),
                head@.len() < text@.len(),
                names_control(head@),
                forall|i: int| 0 <= i < at ==> #[trigger] tail@[i] != ',',
            decreases tail@.len() - at,
        {
            if tail[at] == ',' {
                assert(after_colon(text@).contains(','));
                return (Some(string_of(head)), string_of(tail));
            }
            at += 1;
        }
        assert(!after_colon(text@).contains(','));
    }
    let whole = range_of(text, 0, count);
    assert(whole@ =~= text@);
    (None, string_of(whole))
}

/// Whether the parts of a screen location are those of a field's value. An
/// absent or null field is an empty text.
pub open spec fn is_located(
    symbols: SymbolTable,
    value: Option<Value>,
    control: Option<String>,
    place: ScreenLocation,
) -> bool {
    match value {
        None | Some(Value::Null) => control is None && match place {
            ScreenLocation::Text(text) => text@.len() == 0,
            ScreenLocation::Other(_) => false,
        },
        Some(Value::Text(symbol)) if symbols.knows(symbol) => {
            let text = symbols.spelling(symbol);
            optional_text(control) == control_of(text) && match place {
                ScreenLocation::Text(place) => place@ == location_in(text),
                ScreenLocation::Other(_) => false,
            }
        },
        Some(value) => control is None && place == ScreenLocation::Other(value),
    }
}

/// Whether a tile shows a cell with a turf in it.
pub open spec fn is_tile(
    state: ExecutionState,
    cell: Coordinate,
    turf: DatumId,
    tile: LocalClientMapTile,
) -> bool {
    &&& tile.x == cell.x
    &&& tile.y == cell.y
    &&& tile.type_path == state.heap@.datums[turf].type_path
    &&& tile.color == value_or_none(state, turf, state.names.color)
    &&& tile.occupants@ == listed_datums(state, turf, state.names.contents)
    &&& layers_appear(
        state,
        seq![turf] + tile.occupants@,
        Seq::empty(),
        LAYER_DEPTH as nat,
        tile.appearances@,
    )
}

/// Whether a cell of a level holds a live turf.
pub open spec fn is_shown_cell(state: ExecutionState, z: i32, cell: Coordinate) -> bool {
    &&& cell.z == z
    &&& state.world.turfs@.contains_key(cell)
    &&& state.heap@.datums.contains_key(state.world.turfs@[cell])
}

/// The cell of a tile.
pub open spec fn cell_of(tile: LocalClientMapTile, z: i32) -> Coordinate {
    Coordinate { x: tile.x, y: tile.y, z }
}

/// Whether one tile comes before another: row by row, and in a row by column.
pub open spec fn tile_before(a: LocalClientMapTile, b: LocalClientMapTile) -> bool {
    a.y < b.y || (a.y == b.y && a.x < b.x)
}

/// Whether tiles show each cell of a level that holds a live turf, once, row by
/// row.
pub open spec fn tiles_shown(
    state: ExecutionState,
    z: i32,
    tiles: Seq<LocalClientMapTile>,
) -> bool {
    &&& forall|i: int|
        0 <= i < tiles.len() ==> is_shown_cell(state, z, cell_of(#[trigger] tiles[i], z))
            && is_tile(
            state,
            cell_of(tiles[i], z),
            state.world.turfs@[cell_of(tiles[i], z)],
            tiles[i],
        )
    &&& forall|cell: Coordinate| #[trigger]
        is_shown_cell(state, z, cell) ==> shows_cell(tiles, z, cell)
    &&& forall|i: int, j: int|
        0 <= i < j < tiles.len() ==> tile_before(#[trigger] tiles[i], #[trigger] tiles[j])
}

/// Whether one of the tiles is that of a cell.
pub open spec fn shows_cell(tiles: Seq<LocalClientMapTile>, z: i32, cell: Coordinate) -> bool {
    exists|i: int| 0 <= i < tiles.len() && cell_of(#[trigger] tiles[i], z) == cell
}

/// Whether `width` is the largest column of tiles, zero where there are none.
pub open spec fn is_width(tiles: Seq<LocalClientMapTile>, width: i32) -> bool {
    if tiles.len() == 0 {
        width == 0
    } else {
        &&& exists|i: int| 0 <= i < tiles.len() && (#[trigger] tiles[i]).x == width
        &&& forall|i: int| 0 <= i < tiles.len() ==> (#[trigger] tiles[i]).x <= width
    }
}

/// Whether `height` is the largest row of tiles, zero where there are none.
pub open spec fn is_height(tiles: Seq<LocalClientMapTile>, height: i32) -> bool {
    if tiles.len() == 0 {
        height == 0
    } else {
        &&& exists|i: int| 0 <= i < tiles.len() && (#[trigger] tiles[i]).y == height
        &&& forall|i: int| 0 <= i < tiles.len() ==> (#[trigger] tiles[i]).y <= height
    }
}

/// The drawing keys of what is on the screen.
pub open spec fn screen_keys(entries: Seq<LocalClientScreenAppearance>) -> Seq<SortKey> {
    entries.map_values(
        |entry: LocalClientScreenAppearance|
            draw_key(entry.appearance.plane, entry.appearance.layer),
    )
}

/// Whether an entry shows a datum of the screen.
pub open spec fn is_screen_entry(
    state: ExecutionState,
    datums: Seq<DatumId>,
    entry: LocalClientScreenAppearance,
) -> bool {
    &&& entry.insertion < datums.len()
    &&& appears(
        state,
        datums[entry.insertion as int],
        Seq::empty(),
        LAYER_DEPTH as nat,
        Some(entry.appearance),
    )
    &&& is_located(
        state.symbols,
        field_or_initial(
            state.heap@,
            state.catalog@,
            datums[entry.insertion as int],
            state.names.screen_loc,
        ),
        entry.map_control,
        entry.screen_loc,
    )
}

/// Whether a datum of the screen is among the entries.
pub open spec fn is_entered(entries: Seq<LocalClientScreenAppearance>, at: int) -> bool {
    exists|e: int| 0 <= e < entries.len() && (#[trigger] entries[e]).insertion == at
}

/// Whether entries show the first datums of a screen, in its order, but for those
/// that are not shown.
pub open spec fn screen_entered(
    state: ExecutionState,
    datums: Seq<DatumId>,
    count: int,
    entries: Seq<LocalClientScreenAppearance>,
) -> bool {
    &&& forall|e: int|
        0 <= e < entries.len() ==> (#[trigger] entries[e]).insertion < count && is_screen_entry(
            state,
            datums,
            entries[e],
        )
    &&& forall|a: int, b: int|
        0 <= a < b < entries.len() ==> (#[trigger] entries[a]).insertion < (
        #[trigger] entries[b]).insertion
    &&& forall|at: int|
        0 <= at < count && !#[trigger] is_entered(entries, at) ==> appears(
            state,
            datums[at],
            Seq::empty(),
            LAYER_DEPTH as nat,
            None,
        )
}

/// The datums on a client's screen.
pub open spec fn screen_datums(state: ExecutionState, client: Option<DatumId>) -> Seq<DatumId> {
    match client {
        Some(client) => listed_datums(state, client, state.names.screen),
        None => Seq::empty(),
    }
}

/// Whether `screen` shows a client's screen in drawing order.
pub open spec fn screen_shown(
    state: ExecutionState,
    client: Option<DatumId>,
    screen: Seq<LocalClientScreenAppearance>,
) -> bool {
    let datums = screen_datums(state, client);
    exists|entries: Seq<LocalClientScreenAppearance>, order: Seq<usize>|
        #![trigger is_stable_order(screen_keys(entries), order)]
        is_stable_order(screen_keys(entries), order) && screen == arranged(entries, order)
            && screen_entered(state, datums, datums.len() as int, entries)
}

/// Whether a snapshot shows a level and a client's screen.
pub open spec fn is_snapshot(
    state: ExecutionState,
    client: Option<DatumId>,
    z: i32,
    snapshot: LocalClientMapSnapshot,
) -> bool {
    &&& snapshot.z == z
    &&& tiles_shown(state, z, snapshot.tiles@)
    &&& is_width(snapshot.tiles@, snapshot.width)
    &&& is_height(snapshot.tiles@, snapshot.height)
    &&& screen_shown(state, client, snapshot.screen@)
}

spec fn tile_keys(tiles: Seq<LocalClientMapTile>) -> Seq<SortKey> {
    tiles.map_values(
        |tile: LocalClientMapTile| SortKey { major: tile.y as i128, minor: tile.x as i128 },
    )
}

spec fn distinct_cells(tiles: Seq<LocalClientMapTile>) -> bool {
    forall|i: int, j: int|
        0 <= i < j < tiles.len() ==> (#[trigger] tiles[i]).x != (#[trigger] tiles[j]).x
            || tiles[i].y != tiles[j].y
}

proof fn lemma_tiles_sorted(tiles: Seq<LocalClientMapTile>, order: Seq<usize>)
    requires
        distinct_cells(tiles),
        is_stable_order(tile_keys(tiles), order),
    ensures
        forall|i: int, j: int|
            0 <= i < j < order.len() ==> tile_before(
                #[trigger] arranged(tiles, order)[i],
                #[trigger] arranged(tiles, order)[j],
            ),
{
    let sorted = arranged(tiles, order);
    assert forall|i: int, j: int| 0 <= i < j < order.len() implies tile_before(
        #[trigger] sorted[i],
        #[trigger] sorted[j],
    ) by {
        let keys = tile_keys(tiles);
        let a = order[i] as int;
        let b = order[j] as int;
        assert(item_before(keys, a, b));
        assert(sorted[i] == tiles[a] && sorted[j] == tiles[b]);
        assert(keys[a].major == tiles[a].y && keys[b].major == tiles[b].y);
        if keys[a] == keys[b] {
            assert(tiles[a].x != tiles[b].x || tiles[a].y != tiles[b].y);
        }
    }
}

impl ExecutionState {
    fn map_tile(&self, cell: Coordinate, turf: DatumId, type_path: TypePath) -> (tile:
        LocalClientMapTile)
        requires
            self.heap@.datums.contains_key(turf),
            type_path == self.heap@.datums[turf].type_path,
        ensures
            is_tile(*self, cell, turf, tile),
    {
        let occupants = self.field_datums(turf, self.names.contents);
        let mut drawn: Vec<DatumId> = vec![turf];
        let mut at: usize = 0;
        assert(drawn@ =~= seq![turf] + occupants@.subrange(0, 0));
        while at < occupants.len()
            invariant
                at <= occupants@.len(),
                drawn@ == seq![turf] + occupants@.subrange(0, at as int),
            decreases occupants@.len() - at,
        {
            drawn.push(occupants[at]);
            at += 1;
            assert(drawn@ =~= seq![turf] + occupants@.subrange(0, at as int));
        }
        assert(occupants@.subrange(0, at as int) =~= occupants@);
        let appearances = self.local_client_layers(&drawn);
        LocalClientMapTile {
            x: cell.x,
            y: cell.y,
            type_path,
            color: self.field_value_or_none(turf, self.names.color),
            occupants,
            appearances,
        }
    }

    /// The tiles of a level.
    pub fn local_map_tiles(&self, z: i32) -> (tiles: Vec<LocalClientMapTile>)
        ensures
            tiles_shown(*self, z, tiles@),
    {
        let count: usize = self.world.turfs.len();
        let ghost entries = self.world.turfs.entries();
        let mut found: Vec<LocalClientMapTile> = Vec::new();
        let mut keys: Vec<SortKey> = Vec::new();
        let mut at: usize = 0;
        while at < count
            invariant
                at <= count == entries.len(),
                entries == self.world.turfs.entries(),
                crate::maps::enumerates(entries, self.world.turfs@),
                crate::coordinates::in_coordinate_order(entries),
                keys@ == tile_keys(found@),
                distinct_cells(found@),
                forall|i: int|
                    0 <= i < found@.len() ==> is_shown_cell(
                        *self,
                        z,
                        cell_of(#[trigger] found@[i], z),
                    ) && is_tile(
                        *self,
                        cell_of(found@[i], z),
                        self.world.turfs@[cell_of(found@[i], z)],
                        found@[i],
                    ),
                forall|i: int|
                    0 <= i < found@.len() ==> exists|e: int|
                        0 <= e < at && cell_of(#[trigger] found@[i], z) == (
                        #[trigger] entries[e]).0,
                forall|e: int|
                    0 <= e < at && is_shown_cell(*self, z, (#[trigger] entries[e]).0) ==> shows_cell(
                        found@,
                        z,
                        entries[e].0,
                    ),
            decreases count - at,
        {
            let (cell, turf) = self.world.turfs.entry(at);
            let ghost earlier = found@;
            if cell.z == z {
                if let Ok(datum) = self.heap.datum(*turf) {
                    let tile = self.map_tile(cell, *turf, datum.type_path());
                    assert(cell_of(tile, z) == cell);
                    assert forall|i: int| 0 <= i < found@.len() implies (#[trigger] found@[i]).x
                        != tile.x || found@[i].y != tile.y by {
                        let e = choose|e: int|
                            0 <= e < at && cell_of(found@[i], z) == (#[trigger] entries[e]).0;
                        assert(coordinate_before(entries[e].0, entries[at as int].0));
                    }
                    keys.push(SortKey { major: tile.y as i128, minor: tile.x as i128 });
                    found.push(tile);
                    assert(keys@ =~= tile_keys(found@));
                    assert(cell_of(found@.last(), z) == entries[at as int].0);
                }
            }
            assert forall|e: int|
                0 <= e < at + 1 && is_shown_cell(
                    *self,
                    z,
                    (#[trigger] entries[e]).0,
                ) implies shows_cell(found@, z, entries[e].0) by {
                if e < at {
                    assert(shows_cell(earlier, z, entries[e].0));
                    let i = choose|i: int|
                        0 <= i < earlier.len() && cell_of(#[trigger] earlier[i], z) == entries[e].0;
                    assert(found@[i] == earlier[i]);
                } else {
                    assert(cell_of(found@.last(), z) == entries[e].0);
                }
            }
            assert forall|i: int| 0 <= i < found@.len() implies exists|e: int|
                0 <= e < at + 1 && cell_of(#[trigger] found@[i], z) == (#[trigger] entries[e]).0 by {
                if i < earlier.len() {
                    assert(found@[i] == earlier[i]);
                }
            }
            at += 1;
        }
        let order = stable_order(&keys);
        let ghost unsorted = found@;
        proof {
            lemma_order_distinct(keys@, order@);
            lemma_tiles_sorted(found@, order@);
        }
        let tiles = permuted(found, &order);
        assert forall|cell: Coordinate| #[trigger] is_shown_cell(*self, z, cell) implies shows_cell(
            tiles@,
            z,
            cell,
        ) by {
            let e = choose|e: int| 0 <= e < entries.len() && (#[trigger] entries[e]).0 == cell;
            assert(shows_cell(unsorted, z, entries[e].0));
            let i = choose|i: int|
                0 <= i < unsorted.len() && cell_of(#[trigger] unsorted[i], z) == cell;
            assert(order@.contains(i as usize));
            let k = choose|k: int| 0 <= k < order@.len() && order@[k] == i as usize;
            assert(tiles@[k] == unsorted[i]);
        }
        assert forall|i: int| 0 <= i < tiles@.len() implies is_shown_cell(
            *self,
            z,
            cell_of(#[trigger] tiles@[i], z),
        ) && is_tile(
            *self,
            cell_of(tiles@[i], z),
            self.world.turfs@[cell_of(tiles@[i], z)],
            tiles@[i],
        ) by {
            assert(tiles@[i] == unsorted[order@[i] as int]);
        }
        tiles
    }

    fn screen_place(&self, datum: DatumId) -> (place: (Option<String>, ScreenLocation))
        ensures
            is_located(
                self.symbols,
                field_or_initial(self.heap@, self.catalog@, datum, self.names.screen_loc),
                place.0,
                place.1,
            ),
    {
        match self.datum_field_or_initial(datum, self.names.screen_loc) {
            Ok(Value::Null) => (None, ScreenLocation::Text(string_of(Vec::new()))),
            Ok(Value::Text(symbol)) => match self.symbols.chars(symbol) {
                Some(chars) => {
                    let (control, place) = split_screen_loc(chars);
                    (control, ScreenLocation::Text(place))
                },
                None => (None, ScreenLocation::Other(Value::Text(symbol))),
            },
            Ok(value) => (None, ScreenLocation::Other(value)),
            Err(_) => (None, ScreenLocation::Text(string_of(Vec::new()))),
        }
    }

    /// What is on a client's screen.
    pub fn local_screen(&self, client: Option<DatumId>) -> (screen: Vec<
        LocalClientScreenAppearance,
    >)
        ensures
            screen_shown(*self, client, screen@),
    {
        let datums: Vec<DatumId> = match client {
            Some(client) => self.field_datums(client, self.names.screen),
            None => Vec::new(),
        };
        assert(datums@ =~= screen_datums(*self, client));
        let mut entries: Vec<LocalClientScreenAppearance> = Vec::new();
        let mut keys: Vec<SortKey> = Vec::new();
        let mut at: usize = 0;
        while at < datums.len()
            invariant
                at <= datums@.len(),
                keys@ == screen_keys(entries@),
                screen_entered(*self, datums@, at as int, entries@),
            decreases datums@.len() - at,
        {
            let ghost earlier = entries@;
            let shown = self.local_client_appearance(datums[at]);
            if let Some(appearance) = shown {
                let (map_control, screen_loc) = self.screen_place(datums[at]);
                keys.push(key_of(appearance.plane, appearance.layer));
                entries.push(
                    LocalClientScreenAppearance {
                        map_control,
                        screen_loc,
                        insertion: at,
                        appearance,
                    },
                );
                assert(entries@.last().insertion == at);
            }
            assert(keys@ =~= screen_keys(entries@));
            assert forall|k: int| 0 <= k < at + 1 && !#[trigger] is_entered(entries@, k) implies appears(
                *self,
                datums@[k],
                Seq::empty(),
                LAYER_DEPTH as nat,
                None,
            ) by {
                if is_entered(earlier, k) {
                    let e = choose|e: int|
                        0 <= e < earlier.len() && (#[trigger] earlier[e]).insertion == k;
                    assert(entries@[e] == earlier[e]);
                    assert(is_entered(entries@, k));
                }
            }
            at += 1;
        }
        let order = stable_order(&keys);
        proof {
            lemma_order_distinct(keys@, order@);
        }
        assert(is_stable_order(screen_keys(entries@), order@));
        permuted(entries, &order)
    }

    /// What a client is shown of a level.
    pub fn local_client_map_snapshot_for(&self, client: Option<DatumId>, z: i32) -> (snapshot:
        LocalClientMapSnapshot)
        ensures
            is_snapshot(*self, client, z, snapshot),
    {
        let tiles = self.local_map_tiles(z);
        let mut width: i32 = 0;
        let mut height: i32 = 0;
        let mut at: usize = 0;
        while at < tiles.len()
            invariant
                at <= tiles@.len(),
                is_width(tiles@.subrange(0, at as int), width),
                is_height(tiles@.subrange(0, at as int), height),
            decreases tiles@.len() - at,
        {
            let ghost shorter = tiles@.subrange(0, at as int);
            let ghost longer = tiles@.subrange(0, at + 1);
            assert(longer =~= shorter.push(tiles@[at as int]));
            let ghost wide = width;
            let ghost high = height;
            if at == 0 || tiles[at].x > width {
                width = tiles[at].x;
            }
            if at == 0 || tiles[at].y > height {
                height = tiles[at].y;
            }
            proof {
                if width == tiles@[at as int].x {
                    assert(longer[at as int].x == width);
                } else {
                    let i = choose|i: int| 0 <= i < shorter.len() && (#[trigger] shorter[i]).x == wide;
                    assert(longer[i].x == width);
                }
                if height == tiles@[at as int].y {
                    assert(longer[at as int].y == height);
                } else {
                    let i = choose|i: int| 0 <= i < shorter.len() && (#[trigger] shorter[i]).y == high;
                    assert(longer[i].y == height);
                }
                assert forall|i: int| 0 <= i < longer.len() implies (#[trigger] longer[i]).x <= width
                    && longer[i].y <= height by {
                    if i < at {
                        assert(longer[i] == shorter[i]);
                    }
                }
            }
            at += 1;
        }
        assert(tiles@.subrange(0, at as int) =~= tiles@);
        let screen = self.local_screen(client);
        LocalClientMapSnapshot { width, height, z, tiles, screen }
    }

    /// A level without a screen.
    pub fn local_client_map_snapshot(&self, z: i32) -> (snapshot: LocalClientMapSnapshot)
        ensures
            is_snapshot(*self, None, z, snapshot),
    {
        self.local_client_map_snapshot_for(None, z)
    }
}

/// Two snapshots of one level show the same cells in the same order.
pub proof fn lemma_snapshots_agree(
    state: ExecutionState,
    z: i32,
    a: Seq<LocalClientMapTile>,
    b: Seq<LocalClientMapTile>,
    at: int,
)
    requires
        tiles_shown(state, z, a),
        tiles_shown(state, z, b),
        0 <= at < a.len(),
    ensures
        at < b.len(),
        cell_of(a[at], z) == cell_of(b[at], z),
    decreases at,
{
    if at > 0 {
        lemma_snapshots_agree(state, z, a, b, at - 1);
    }
    assert forall|i: int| 0 <= i < at implies i < b.len() && cell_of(#[trigger] a[i], z) == cell_of(
        b[i],
        z,
    ) by {
        lemma_snapshots_agree(state, z, a, b, i);
    }
    assert(is_shown_cell(state, z, cell_of(a[at], z)));
    assert(shows_cell(b, z, cell_of(a[at], z)));
    let j = choose|j: int| 0 <= j < b.len() && cell_of(#[trigger] b[j], z) == cell_of(a[at], z);
    if j < at {
        assert(cell_of(a[j], z) == cell_of(b[j], z));
        assert(tile_before(a[j], a[at]));
    }
    if j > at {
        assert(is_shown_cell(state, z, cell_of(b[at], z)));
        assert(shows_cell(a, z, cell_of(b[at], z)));
        let k = choose|k: int| 0 <= k < a.len() && cell_of(#[trigger] a[k], z) == cell_of(b[at], z);
        assert(tile_before(b[at], b[j]));
        if k < at {
            assert(cell_of(a[k], z) == cell_of(b[k], z));
            assert(tile_before(b[k], b[at]));
        } else if k > at {
            assert(tile_before(a[at], a[k]));
        }
    }
}

} // verus!
