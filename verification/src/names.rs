//! The names that the engine itself gives to fields and types.

use vstd::prelude::*;
use crate::symbols::SymbolTable;
use crate::value::{FieldName, Symbol, TypePath};

verus! {

/// Interned engine names.
#[derive(Clone, Copy)]
pub struct EngineNames {
    pub contents: FieldName,
    pub vis_contents: FieldName,
    pub vis_locs: FieldName,
    pub x: FieldName,
    pub y: FieldName,
    pub z: FieldName,
    pub loc: FieldName,
    pub maxx: FieldName,
    pub maxy: FieldName,
    pub maxz: FieldName,
    pub area: FieldName,
    pub turf: FieldName,
    pub world: FieldName,
    pub caller: FieldName,
    pub src: FieldName,
    pub usr: FieldName,
    pub args: FieldName,
    pub type_: FieldName,
    pub file: FieldName,
    pub line: FieldName,
    pub tick_usage: FieldName,
    pub tick_lag: FieldName,
    pub verbs: FieldName,
    pub mob: FieldName,
    pub client: FieldName,
    pub eye: FieldName,
    pub color: FieldName,
    pub screen: FieldName,
    pub screen_loc: FieldName,
    pub icon: FieldName,
    pub icon_state: FieldName,
    pub dir: FieldName,
    pub layer: FieldName,
    pub plane: FieldName,
    pub appearance_flags: FieldName,
    pub mouse_opacity: FieldName,
    pub pixel_x: FieldName,
    pub pixel_y: FieldName,
    pub pixel_w: FieldName,
    pub pixel_z: FieldName,
    pub alpha: FieldName,
    pub maptext: FieldName,
    pub maptext_width: FieldName,
    pub maptext_height: FieldName,
    pub maptext_x: FieldName,
    pub maptext_y: FieldName,
    pub underlays: FieldName,
    pub overlays: FieldName,
    pub key: FieldName,
    pub ckey: FieldName,
    pub address: FieldName,
    pub computer_id: FieldName,
    pub connection: FieldName,
    pub byond_version: FieldName,
    pub byond_build: FieldName,
    pub parent_type: FieldName,
    pub vars: FieldName,
    pub len: FieldName,
    pub map_format: FieldName,
    pub grid_models: FieldName,
    pub model_cache: FieldName,
    pub bounds: FieldName,
    pub listen_lookup: FieldName,
    pub pattern: FieldName,
    pub flags: FieldName,
    pub text: FieldName,
    pub matched: FieldName,
    pub index: FieldName,
    pub group: FieldName,
    pub next: FieldName,
    pub cursor: FieldName,
    pub haystack: FieldName,
    pub area_path: TypePath,
    pub turf_path: TypePath,
    pub client_path: TypePath,
    pub mob_path: TypePath,
    pub world_path: TypePath,
    pub callee_path: TypePath,
    pub mutable_appearance_path: TypePath,
    pub savefile_entry_path: TypePath,
}

fn spellings() -> (texts: Vec<&'static str>)
    ensures
        texts@.len() == 80,
        texts@[0]@ == "contents"@,
        texts@[1]@ == "vis_contents"@,
        texts@[2]@ == "vis_locs"@,
        texts@[3]@ == "x"@,
        texts@[4]@ == "y"@,
        texts@[5]@ == "z"@,
        texts@[6]@ == "loc"@,
        texts@[7]@ == "maxx"@,
        texts@[8]@ == "maxy"@,
        texts@[9]@ == "maxz"@,
        texts@[10]@ == "area"@,
        texts@[11]@ == "turf"@,
        texts@[12]@ == "world"@,
        texts@[13]@ == "caller"@,
        texts@[14]@ == "src"@,
        texts@[15]@ == "usr"@,
        texts@[16]@ == "args"@,
        texts@[17]@ == "type"@,
        texts@[18]@ == "file"@,
        texts@[19]@ == "line"@,
        texts@[20]@ == "tick_usage"@,
        texts@[21]@ == "tick_lag"@,
        texts@[22]@ == "verbs"@,
        texts@[23]@ == "mob"@,
        texts@[24]@ == "client"@,
        texts@[25]@ == "eye"@,
        texts@[26]@ == "color"@,
        texts@[27]@ == "screen"@,
        texts@[28]@ == "screen_loc"@,
        texts@[29]@ == "icon"@,
        texts@[30]@ == "icon_state"@,
        texts@[31]@ == "dir"@,
        texts@[32]@ == "layer"@,
        texts@[33]@ == "plane"@,
        texts@[34]@ == "appearance_flags"@,
        texts@[35]@ == "mouse_opacity"@,
        texts@[36]@ == "pixel_x"@,
        texts@[37]@ == "pixel_y"@,
        texts@[38]@ == "pixel_w"@,
        texts@[39]@ == "pixel_z"@,
        texts@[40]@ == "alpha"@,
        texts@[41]@ == "maptext"@,
        texts@[42]@ == "maptext_width"@,
        texts@[43]@ == "maptext_height"@,
        texts@[44]@ == "maptext_x"@,
        texts@[45]@ == "maptext_y"@,
        texts@[46]@ == "underlays"@,
        texts@[47]@ == "overlays"@,
        texts@[48]@ == "key"@,
        texts@[49]@ == "ckey"@,
        texts@[50]@ == "address"@,
        texts@[51]@ == "computer_id"@,
        texts@[52]@ == "connection"@,
        texts@[53]@ == "byond_version"@,
        texts@[54]@ == "byond_build"@,
        texts@[55]@ == "parent_type"@,
        texts@[56]@ == "vars"@,
        texts@[57]@ == "len"@,
        texts@[58]@ == "map_format"@,
        texts@[59]@ == "grid_models"@,
        texts@[60]@ == "modelCache"@,
        texts@[61]@ == "bounds"@,
        texts@[62]@ == "_listen_lookup"@,
        texts@[63]@ == "_dream64_pattern"@,
        texts@[64]@ == "flags"@,
        texts@[65]@ == "text"@,
        texts@[66]@ == "match"@,
        texts@[67]@ == "index"@,
        texts@[68]@ == "group"@,
        texts@[69]@ == "next"@,
        texts@[70]@ == "_dream64_cursor"@,
        texts@[71]@ == "_dream64_haystack"@,
        texts@[72]@ == "/area"@,
        texts@[73]@ == "/turf"@,
        texts@[74]@ == "/client"@,
        texts@[75]@ == "/mob"@,
        texts@[76]@ == "/world"@,
        texts@[77]@ == "/callee"@,
        texts@[78]@ == "/mutable_appearance"@,
        texts@[79]@ == "/savefile/entry"@,
{
    vec![
        "contents",
        "vis_contents",
        "vis_locs",
        "x",
        "y",
        "z",
        "loc",
        "maxx",
        "maxy",
        "maxz",
        "area",
        "turf",
        "world",
        "caller",
        "src",
        "usr",
        "args",
        "type",
        "file",
        "line",
        "tick_usage",
        "tick_lag",
        "verbs",
        "mob",
        "client",
        "eye",
        "color",
        "screen",
        "screen_loc",
        "icon",
        "icon_state",
        "dir",
        "layer",
        "plane",
        "appearance_flags",
        "mouse_opacity",
        "pixel_x",
        "pixel_y",
        "pixel_w",
        "pixel_z",
        "alpha",
        "maptext",
        "maptext_width",
        "maptext_height",
        "maptext_x",
        "maptext_y",
        "underlays",
        "overlays",
        "key",
        "ckey",
        "address",
        "computer_id",
        "connection",
        "byond_version",
        "byond_build",
        "parent_type",
        "vars",
        "len",
        "map_format",
        "grid_models",
        "modelCache",
        "bounds",
        "_listen_lookup",
        "_dream64_pattern",
        "flags",
        "text",
        "match",
        "index",
        "group",
        "next",
        "_dream64_cursor",
        "_dream64_haystack",
        "/area",
        "/turf",
        "/client",
        "/mob",
        "/world",
        "/callee",
        "/mutable_appearance",
        "/savefile/entry",
    ]
}

impl EngineNames {
    /// Whether every name spells what it stands for.
    pub open spec fn valid(&self, symbols: &SymbolTable) -> bool {
        &&& symbols.spells(self.contents.0, "contents"@)
        &&& symbols.spells(self.vis_contents.0, "vis_contents"@)
        &&& symbols.spells(self.vis_locs.0, "vis_locs"@)
        &&& symbols.spells(self.x.0, "x"@)
        &&& symbols.spells(self.y.0, "y"@)
        &&& symbols.spells(self.z.0, "z"@)
        &&& symbols.spells(self.loc.0, "loc"@)
        &&& symbols.spells(self.maxx.0, "maxx"@)
        &&& symbols.spells(self.maxy.0, "maxy"@)
        &&& symbols.spells(self.maxz.0, "maxz"@)
        &&& symbols.spells(self.area.0, "area"@)
        &&& symbols.spells(self.turf.0, "turf"@)
        &&& symbols.spells(self.world.0, "world"@)
        &&& symbols.spells(self.caller.0, "caller"@)
        &&& symbols.spells(self.src.0, "src"@)
        &&& symbols.spells(self.usr.0, "usr"@)
        &&& symbols.spells(self.args.0, "args"@)
        &&& symbols.spells(self.type_.0, "type"@)
        &&& symbols.spells(self.file.0, "file"@)
        &&& symbols.spells(self.line.0, "line"@)
        &&& symbols.spells(self.tick_usage.0, "tick_usage"@)
        &&& symbols.spells(self.tick_lag.0, "tick_lag"@)
        &&& symbols.spells(self.verbs.0, "verbs"@)
        &&& symbols.spells(self.mob.0, "mob"@)
        &&& symbols.spells(self.client.0, "client"@)
        &&& symbols.spells(self.eye.0, "eye"@)
        &&& symbols.spells(self.color.0, "color"@)
        &&& symbols.spells(self.screen.0, "screen"@)
        &&& symbols.spells(self.screen_loc.0, "screen_loc"@)
        &&& symbols.spells(self.icon.0, "icon"@)
        &&& symbols.spells(self.icon_state.0, "icon_state"@)
        &&& symbols.spells(self.dir.0, "dir"@)
        &&& symbols.spells(self.layer.0, "layer"@)
        &&& symbols.spells(self.plane.0, "plane"@)
        &&& symbols.spells(self.appearance_flags.0, "appearance_flags"@)
        &&& symbols.spells(self.mouse_opacity.0, "mouse_opacity"@)
        &&& symbols.spells(self.pixel_x.0, "pixel_x"@)
        &&& symbols.spells(self.pixel_y.0, "pixel_y"@)
        &&& symbols.spells(self.pixel_w.0, "pixel_w"@)
        &&& symbols.spells(self.pixel_z.0, "pixel_z"@)
        &&& symbols.spells(self.alpha.0, "alpha"@)
        &&& symbols.spells(self.maptext.0, "maptext"@)
        &&& symbols.spells(self.maptext_width.0, "maptext_width"@)
        &&& symbols.spells(self.maptext_height.0, "maptext_height"@)
        &&& symbols.spells(self.maptext_x.0, "maptext_x"@)
        &&& symbols.spells(self.maptext_y.0, "maptext_y"@)
        &&& symbols.spells(self.underlays.0, "underlays"@)
        &&& symbols.spells(self.overlays.0, "overlays"@)
        &&& symbols.spells(self.key.0, "key"@)
        &&& symbols.spells(self.ckey.0, "ckey"@)
        &&& symbols.spells(self.address.0, "address"@)
        &&& symbols.spells(self.computer_id.0, "computer_id"@)
        &&& symbols.spells(self.connection.0, "connection"@)
        &&& symbols.spells(self.byond_version.0, "byond_version"@)
        &&& symbols.spells(self.byond_build.0, "byond_build"@)
        &&& symbols.spells(self.parent_type.0, "parent_type"@)
        &&& symbols.spells(self.vars.0, "vars"@)
        &&& symbols.spells(self.len.0, "len"@)
        &&& symbols.spells(self.map_format.0, "map_format"@)
        &&& symbols.spells(self.grid_models.0, "grid_models"@)
        &&& symbols.spells(self.model_cache.0, "modelCache"@)
        &&& symbols.spells(self.bounds.0, "bounds"@)
        &&& symbols.spells(self.listen_lookup.0, "_listen_lookup"@)
        &&& symbols.spells(self.pattern.0, "_dream64_pattern"@)
        &&& symbols.spells(self.flags.0, "flags"@)
        &&& symbols.spells(self.text.0, "text"@)
        &&& symbols.spells(self.matched.0, "match"@)
        &&& symbols.spells(self.index.0, "index"@)
        &&& symbols.spells(self.group.0, "group"@)
        &&& symbols.spells(self.next.0, "next"@)
        &&& symbols.spells(self.cursor.0, "_dream64_cursor"@)
        &&& symbols.spells(self.haystack.0, "_dream64_haystack"@)
        &&& symbols.spells(self.area_path.0, "/area"@)
        &&& symbols.spells(self.turf_path.0, "/turf"@)
        &&& symbols.spells(self.client_path.0, "/client"@)
        &&& symbols.spells(self.mob_path.0, "/mob"@)
        &&& symbols.spells(self.world_path.0, "/world"@)
        &&& symbols.spells(self.callee_path.0, "/callee"@)
        &&& symbols.spells(self.mutable_appearance_path.0, "/mutable_appearance"@)
        &&& symbols.spells(self.savefile_entry_path.0, "/savefile/entry"@)
    }

    /// Interns the engine names.
    pub fn install(symbols: &mut SymbolTable) -> (names: EngineNames)
        ensures
            names.valid(final(symbols)),
            old(symbols)@.is_prefix_of(final(symbols)@),
    {
        let texts = spellings();
        let mut known: Vec<Symbol> = Vec::new();
        let mut at: usize = 0;
        while at < texts.len()
            invariant
                at <= texts@.len(),
                known@.len() == at,
                old(symbols)@.is_prefix_of(symbols@),
                forall|i: int| 0 <= i < at ==> symbols.spells(#[trigger] known@[i], texts@[i]@),
            decreases texts@.len() - at,
        {
            let ghost before = *symbols;
            let symbol = symbols.intern(texts[at]);
            proof {
                assert(before@.is_prefix_of(symbols@));
                assert forall|i: int| 0 <= i < at implies symbols.spells(
                    #[trigger] known@[i],
                    texts@[i]@,
                ) by {
                    assert(before.spells(known@[i], texts@[i]@));
                }
            }
            known.push(symbol);
            at += 1;
        }
        EngineNames {
            contents: FieldName(known[0]),
            vis_contents: FieldName(known[1]),
            vis_locs: FieldName(known[2]),
            x: FieldName(known[3]),
            y: FieldName(known[4]),
            z: FieldName(known[5]),
            loc: FieldName(known[6]),
            maxx: FieldName(known[7]),
            maxy: FieldName(known[8]),
            maxz: FieldName(known[9]),
            area: FieldName(known[10]),
            turf: FieldName(known[11]),
            world: FieldName(known[12]),
            caller: FieldName(known[13]),
            src: FieldName(known[14]),
            usr: FieldName(known[15]),
            args: FieldName(known[16]),
            type_: FieldName(known[17]),
            file: FieldName(known[18]),
            line: FieldName(known[19]),
            tick_usage: FieldName(known[20]),
            tick_lag: FieldName(known[21]),
            verbs: FieldName(known[22]),
            mob: FieldName(known[23]),
            client: FieldName(known[24]),
            eye: FieldName(known[25]),
            color: FieldName(known[26]),
            screen: FieldName(known[27]),
            screen_loc: FieldName(known[28]),
            icon: FieldName(known[29]),
            icon_state: FieldName(known[30]),
            dir: FieldName(known[31]),
            layer: FieldName(known[32]),
            plane: FieldName(known[33]),
            appearance_flags: FieldName(known[34]),
            mouse_opacity: FieldName(known[35]),
            pixel_x: FieldName(known[36]),
            pixel_y: FieldName(known[37]),
            pixel_w: FieldName(known[38]),
            pixel_z: FieldName(known[39]),
            alpha: FieldName(known[40]),
            maptext: FieldName(known[41]),
            maptext_width: FieldName(known[42]),
            maptext_height: FieldName(known[43]),
            maptext_x: FieldName(known[44]),
            maptext_y: FieldName(known[45]),
            underlays: FieldName(known[46]),
            overlays: FieldName(known[47]),
            key: FieldName(known[48]),
            ckey: FieldName(known[49]),
            address: FieldName(known[50]),
            computer_id: FieldName(known[51]),
            connection: FieldName(known[52]),
            byond_version: FieldName(known[53]),
            byond_build: FieldName(known[54]),
            parent_type: FieldName(known[55]),
            vars: FieldName(known[56]),
            len: FieldName(known[57]),
            map_format: FieldName(known[58]),
            grid_models: FieldName(known[59]),
            model_cache: FieldName(known[60]),
            bounds: FieldName(known[61]),
            listen_lookup: FieldName(known[62]),
            pattern: FieldName(known[63]),
            flags: FieldName(known[64]),
            text: FieldName(known[65]),
            matched: FieldName(known[66]),
            index: FieldName(known[67]),
            group: FieldName(known[68]),
            next: FieldName(known[69]),
            cursor: FieldName(known[70]),
            haystack: FieldName(known[71]),
            area_path: TypePath(known[72]),
            turf_path: TypePath(known[73]),
            client_path: TypePath(known[74]),
            mob_path: TypePath(known[75]),
            world_path: TypePath(known[76]),
            callee_path: TypePath(known[77]),
            mutable_appearance_path: TypePath(known[78]),
            savefile_entry_path: TypePath(known[79]),
        }
    }
}

/// Names stay valid while the table only grows.
pub proof fn lemma_names_persist(names: EngineNames, before: &SymbolTable, after: &SymbolTable)
    requires
        names.valid(before),
        before@.is_prefix_of(after@),
    ensures
        names.valid(after),
{
}

} // verus!
