//! Stack effects of commands: how many values each pops and pushes, per
//! stack where known.
use crate::text::{chars_of, starts_with, str_eq};
use vstd::prelude::*;

verus! {

/// The total pops and pushes of a command.
#[derive(Debug, Clone, Copy, PartialEq, Eq, Structural)]
pub struct StackEffect {
    pub pops: usize,
    pub pushes: usize,
}

/// Per-stack pop and push counts of an opcode.
#[derive(Debug, Clone, Copy, PartialEq, Eq, Structural)]
pub struct OpcodeStackEffect {
    pub int_pops: usize,
    pub obj_pops: usize,
    pub long_pops: usize,
    pub int_pushes: usize,
    pub obj_pushes: usize,
    pub long_pushes: usize,
}

/// The stack a pushed value lands on.
#[derive(Debug, Clone, Copy, PartialEq, Eq, Structural)]
pub enum PushedType {
    Int,
    Obj,
    Long,
    NoPush,
    Multi,
}

impl OpcodeStackEffect {
    /// All pops.
    pub fn total_pops(&self) -> (r: usize)
        requires
            self.int_pops + self.obj_pops + self.long_pops <= usize::MAX,
        ensures
            r == self.int_pops + self.obj_pops + self.long_pops,
    {
        self.int_pops + self.obj_pops + self.long_pops
    }

    /// All pushes.
    pub fn total_pushes(&self) -> (r: usize)
        requires
            self.int_pushes + self.obj_pushes + self.long_pushes <= usize::MAX,
        ensures
            r == self.int_pushes + self.obj_pushes + self.long_pushes,
    {
        self.int_pushes + self.obj_pushes + self.long_pushes
    }

    /// The stack a single pushed value lands on; `Multi` when more than one
    /// stack is pushed, `NoPush` when nothing is.
    pub fn pushed_type(&self) -> (r: PushedType)
        ensures
            r == (match (self.int_pushes > 0, self.obj_pushes > 0, self.long_pushes > 0) {
                (false, false, false) => PushedType::NoPush,
                (true, false, false) => PushedType::Int,
                (false, true, false) => PushedType::Obj,
                (false, false, true) => PushedType::Long,
                _ => PushedType::Multi,
            }),
    {
        match (self.int_pushes > 0, self.obj_pushes > 0, self.long_pushes > 0) {
            (false, false, false) => PushedType::NoPush,
            (true, false, false) => PushedType::Int,
            (false, true, false) => PushedType::Obj,
            (false, false, true) => PushedType::Long,
            _ => PushedType::Multi,
        }
    }
}

/// An effect on the int stack only.
pub fn int_effect(pops: usize, pushes: usize) -> (r: OpcodeStackEffect)
    ensures
        r == (OpcodeStackEffect {
            int_pops: pops,
            obj_pops: 0,
            long_pops: 0,
            int_pushes: pushes,
            obj_pushes: 0,
            long_pushes: 0,
        }),
{
    OpcodeStackEffect {
        int_pops: pops,
        obj_pops: 0,
        long_pops: 0,
        int_pushes: pushes,
        obj_pushes: 0,
        long_pushes: 0,
    }
}

/// A row of the hand-checked table: the command, then its int, object and
/// long pops and its int, object and long pushes.
pub type EffectRow = (&'static str, u8, u8, u8, u8, u8, u8);

/// The hand-checked effects of commands whose handlers hide their stack
/// use, as values.
pub open spec fn manual_table() -> Seq<(Seq<char>, u8, u8, u8, u8, u8, u8)> {
    seq![
        ("activeclanchannel_find_affined"@, 0, 0, 0, 1, 0, 0),
        ("activeclanchannel_find_listened"@, 0, 0, 0, 1, 0, 0),
        ("activeclansettings_find_affined"@, 0, 0, 0, 1, 0, 0),
        ("activeclansettings_find_listened"@, 0, 0, 0, 1, 0, 0),
        ("baseidkit"@, 2, 0, 0, 0, 0, 0),
        ("basecolour"@, 2, 0, 0, 0, 0, 0),
        ("setobj"@, 2, 0, 0, 0, 0, 0),
        ("setgender"@, 1, 0, 0, 0, 0, 0),
        ("cc_clearscripthooks"@, 0, 0, 0, 0, 0, 0),
        ("cam2_setfieldofview"@, 2, 0, 0, 0, 0, 0),
        ("cam2_setcollisionmode"@, 2, 0, 0, 0, 0, 0),
        ("cam2_setlookatentity_npc"@, 4, 0, 0, 0, 0, 0),
        ("cam2_setlookatentity_player"@, 4, 0, 0, 0, 0, 0),
        ("cam2_setlookatacceleration_axis"@, 4, 0, 0, 0, 0, 0),
        ("cam2_setlookatmaxspeed_axis"@, 4, 0, 0, 0, 0, 0),
        ("cam2_setpositionacceleration_axis"@, 4, 0, 0, 0, 0, 0),
        ("cam2_setpositionmaxspeed_axis"@, 4, 0, 0, 0, 0, 0),
        ("cam2_setlinearmovementmode"@, 1, 0, 0, 0, 0, 0),
        ("cam2_setlookatangularinterpolation"@, 1, 0, 0, 0, 0, 0),
        ("cam2_setpositionangularinterpolation"@, 1, 0, 0, 0, 0, 0),
        ("cam2_setsnapdistances"@, 3, 0, 0, 0, 0, 0),
        ("cam2_setspringproperties"@, 4, 0, 0, 0, 0, 0),
        ("highlight_set_category_colour"@, 4, 0, 0, 0, 0, 0),
        ("chat_setmode_affined_clan"@, 1, 0, 0, 0, 0, 0),
        ("cutscene2d_stop"@, 1, 0, 0, 0, 0, 0),
        ("deeplink_clear_index"@, 1, 0, 0, 0, 0, 0),
        ("picking_setmaxdistance"@, 1, 0, 0, 0, 0, 0),
        ("unknown_command_27"@, 1, 0, 0, 0, 0, 0),
        ("unknown_command_44"@, 1, 0, 0, 0, 0, 0),
        ("unknown_command_48"@, 1, 0, 0, 0, 0, 0),
        ("unknown_command_50"@, 1, 0, 0, 0, 0, 0),
        ("unknown_command_53"@, 1, 0, 0, 0, 0, 0),
        ("unknown_command_55"@, 1, 0, 0, 0, 0, 0),
        ("worldmap_3dview_enable"@, 1, 0, 0, 0, 0, 0),
        ("federated_login"@, 2, 0, 0, 0, 0, 0),
        ("highlight_set_category_mode"@, 2, 0, 0, 0, 0, 0),
        ("unknown_command_58"@, 2, 0, 0, 0, 0, 0),
        ("unknown_command_16"@, 4, 0, 0, 0, 0, 0),
        ("unknown_command_35"@, 4, 0, 0, 0, 0, 0),
        ("unknown_command_77"@, 3, 0, 0, 0, 0, 0),
        ("deeplink_get"@, 1, 0, 0, 1, 0, 0),
        ("notifications_islocalscheduled"@, 1, 0, 0, 1, 0, 0),
        ("preload_progress"@, 1, 0, 0, 1, 0, 0),
        ("stat"@, 1, 0, 0, 1, 0, 0),
        ("stat_base"@, 1, 0, 0, 1, 0, 0),
        ("stat_base_actual"@, 1, 0, 0, 1, 0, 0),
        ("stylesheet_has_parent"@, 1, 0, 0, 1, 0, 0),
        ("stylesheet_get_parent_id"@, 1, 0, 0, 1, 0, 0),
        ("unknown_command_81"@, 1, 0, 0, 1, 0, 0),
        ("stylesheet_has_value"@, 1, 1, 0, 1, 0, 0),
        ("unknown_command_20"@, 0, 0, 0, 1, 0, 0),
        ("field6563"@, 0, 0, 0, 1, 0, 0),
        ("struct_param"@, 2, 0, 0, 1, 0, 0),
        ("unknown_command_34"@, 2, 0, 0, 1, 0, 0),
        ("unknown_command_79"@, 2, 0, 0, 1, 0, 0),
        ("inv_stockbase"@, 2, 0, 0, 1, 0, 0),
        ("unknown_command_103"@, 2, 1, 0, 0, 0, 0),
        ("unknown_command_104"@, 1, 0, 0, 0, 0, 0),
        ("unknown_command_105"@, 1, 0, 0, 0, 0, 0),
        ("cam2_setdepthplanes"@, 2, 0, 0, 0, 0, 0),
        ("worldmap_3dview_setloddistance"@, 2, 0, 0, 0, 0, 0),
        ("highlight_reset_category_to_default"@, 1, 0, 0, 0, 0, 0),
        ("setminimapmask"@, 1, 0, 0, 0, 0, 0),
        ("highlight_set_localplayer_silhouette_mode"@, 1, 0, 0, 0, 0, 0),
        ("unknown_command_65"@, 1, 0, 0, 0, 0, 0),
        ("highlight_set_category_scale"@, 2, 0, 0, 0, 0, 0),
        ("unknown_command_7"@, 3, 0, 0, 0, 0, 0),
        ("unknown_command_62"@, 4, 0, 0, 1, 0, 0),
        ("field5283"@, 1, 0, 0, 1, 0, 0),
        ("field6317"@, 1, 0, 0, 0, 0, 0),
        ("get_entity_bounding_box"@, 0, 0, 0, 5, 0, 0),
        ("get_loc_bounding_box"@, 0, 0, 0, 5, 0, 0),
        ("get_obj_bounding_box"@, 0, 0, 0, 5, 0, 0),
        ("cc_getcharindexatpos"@, 2, 0, 0, 1, 0, 0),
        ("if_getcharindexatpos"@, 3, 0, 0, 1, 0, 0),
        ("cc_getcharposatindex"@, 1, 0, 0, 2, 0, 0),
        ("if_getcharposatindex"@, 2, 0, 0, 2, 0, 0),
        ("marketing_sendanalyticsevent"@, 0, 1, 0, 0, 0, 0),
        ("marketing_sendattributionevent"@, 0, 1, 0, 0, 0, 0),
        ("resume_countdialog_long"@, 0, 1, 0, 0, 0, 0),
        ("worldmap_3dview_getcoordfine"@, 3, 0, 0, 1, 0, 0),
        ("worldmap_coordinmap"@, 2, 0, 0, 1, 0, 0),
        ("stylesheet_get_value"@, 2, 1, 0, 1, 0, 0),
        ("if_set2dangle"@, 2, 0, 0, 0, 0, 0),
        ("if_sethflip"@, 2, 0, 0, 0, 0, 0),
        ("if_setnpcmodel"@, 2, 0, 0, 0, 0, 0),
        ("if_setvflip"@, 2, 0, 0, 0, 0, 0),
        ("oc_desc"@, 1, 0, 0, 0, 1, 0),
        ("store_lookup"@, 1, 1, 0, 10, 0, 3),
        ("store_init"@, 0, 1, 0, 0, 0, 0),
        ("steam_setachievement"@, 2, 1, 0, 1, 0, 0),
        ("cc_npc_setcustombodymodel"@, 2, 0, 0, 0, 0, 0),
        ("cc_npc_setcustomheadmodel"@, 2, 0, 0, 0, 0, 0),
        ("cc_npc_setcustomrecol"@, 2, 0, 0, 0, 0, 0),
        ("cc_npc_setcustomretex"@, 2, 0, 0, 0, 0, 0),
        ("if_npc_setcustombodymodel"@, 3, 0, 0, 0, 0, 0),
        ("if_npc_setcustomheadmodel"@, 3, 0, 0, 0, 0, 0),
        ("if_npc_setcustomrecol"@, 3, 0, 0, 0, 0, 0),
        ("if_npc_setcustomretex"@, 3, 0, 0, 0, 0, 0),
        ("cc_setcustombodyretex"@, 4, 0, 0, 0, 0, 0),
        ("cc_setcustombodyrecol"@, 4, 0, 0, 0, 0, 0),
        ("cc_setcustomheadretex"@, 4, 0, 0, 0, 0, 0),
        ("cc_setcustomheadrecol"@, 4, 0, 0, 0, 0, 0),
        ("if_setcustombodyretex"@, 5, 0, 0, 0, 0, 0),
        ("if_setcustombodyrecol"@, 5, 0, 0, 0, 0, 0),
        ("if_setcustomheadretex"@, 5, 0, 0, 0, 0, 0),
        ("if_setcustomheadrecol"@, 5, 0, 0, 0, 0, 0),
        ("cc_npc_setcustombodymodel_transformed"@, 10, 0, 0, 0, 0, 0),
        ("if_npc_setcustombodymodel_transformed"@, 11, 0, 0, 0, 0, 0),
        ("cc_createchild"@, 3, 0, 0, 0, 0, 0),
        ("if_createchild"@, 4, 0, 0, 0, 0, 0),
        ("db_listall"@, 1, 0, 0, 1, 0, 0),
        ("db_find_with_count"@, 3, 0, 0, 1, 0, 0),
        ("db_find_refine"@, 3, 0, 0, 1, 0, 0),
        ("db_findnext"@, 0, 0, 0, 1, 0, 0),
        ("db_getfield"@, 3, 0, 0, 1, 0, 0),
        ("db_getfieldcount"@, 2, 0, 0, 1, 0, 0),
        ("db_find_get"@, 1, 0, 0, 1, 0, 0),
        ("db_getrowtable"@, 1, 0, 0, 1, 0, 0),
        ("db_filter_find"@, 5, 0, 0, 1, 0, 0),
        ("db_filter_value"@, 4, 0, 0, 1, 0, 0),
        ("db_filter_unknown"@, 1, 0, 0, 1, 0, 0),
        ("db_filter_combine"@, 2, 0, 0, 1, 0, 0),
        ("db_filter_column"@, 3, 0, 0, 1, 0, 0),
        ("db_filter_substring"@, 2, 1, 0, 1, 0, 0),
        ("if_setop"@, 2, 1, 0, 0, 0, 0),
        ("if_setopbase"@, 1, 1, 0, 0, 0, 0),
        ("if_setpausetext"@, 1, 1, 0, 0, 0, 0),
        ("if_settargetverb"@, 1, 1, 0, 0, 0, 0),
        ("if_setopcursor"@, 3, 0, 0, 0, 0, 0),
        ("if_setopchar"@, 3, 0, 0, 0, 0, 0),
        ("if_setoptkey"@, 3, 0, 0, 0, 0, 0),
        ("if_settargetcursors"@, 3, 0, 0, 0, 0, 0),
        ("if_setoptchar"@, 2, 0, 0, 0, 0, 0),
        ("if_setoptkeyignoreheld"@, 2, 0, 0, 0, 0, 0),
        ("if_setopkeyignoreheld"@, 2, 0, 0, 0, 0, 0),
        ("if_setdragrenderbehaviour"@, 2, 0, 0, 0, 0, 0),
        ("if_setdragdeadzone"@, 2, 0, 0, 0, 0, 0),
        ("if_setdragdeadtime"@, 2, 0, 0, 0, 0, 0),
        ("if_setmouseovercursor"@, 2, 0, 0, 0, 0, 0),
        ("if_settargetopcursor"@, 2, 0, 0, 0, 0, 0),
        ("if_setmaxlines"@, 2, 0, 0, 0, 0, 0),
        ("if_setmodelanim"@, 2, 0, 0, 0, 0, 0),
        ("if_setnpchead"@, 2, 0, 0, 0, 0, 0),
        ("if_setplayerhead_self"@, 2, 0, 0, 0, 0, 0),
        ("if_setopkey"@, 4, 0, 0, 0, 0, 0),
        ("if_setopkeyrate"@, 4, 0, 0, 0, 0, 0),
        ("if_setoptkeyrate"@, 3, 0, 0, 0, 0, 0),
        ("if_setdraggable"@, 3, 0, 0, 0, 0, 0)
    ]
}

/// A row by its values.
pub open spec fn row_view(r: EffectRow) -> (Seq<char>, u8, u8, u8, u8, u8, u8) {
    (r.0@, r.1, r.2, r.3, r.4, r.5, r.6)
}

/// The effect a row gives.
pub open spec fn row_effect(r: (Seq<char>, u8, u8, u8, u8, u8, u8)) -> OpcodeStackEffect {
    OpcodeStackEffect {
        int_pops: r.1 as usize,
        obj_pops: r.2 as usize,
        long_pops: r.3 as usize,
        int_pushes: r.4 as usize,
        obj_pushes: r.5 as usize,
        long_pushes: r.6 as usize,
    }
}

/// The effect of the first row for `c` in `t`.
pub open spec fn table_effect(t: Seq<(Seq<char>, u8, u8, u8, u8, u8, u8)>, c: Seq<char>) -> Option<OpcodeStackEffect>
    decreases t.len(),
{
    if t.len() == 0 {
        None
    } else if t[0].0 == c {
        Some(row_effect(t[0]))
    } else {
        table_effect(t.drop_first(), c)
    }
}

/// The hand-checked effects of commands whose handlers hide their stack
/// use: (name, int pops, object pops, long pops, int pushes, object pushes,
/// long pushes).
fn manual_entries() -> (r: Vec<EffectRow>)
    ensures
        r@.map_values(|e: EffectRow| row_view(e)) == manual_table(),
{
    let v: Vec<EffectRow> = vec![
        ("activeclanchannel_find_affined", 0, 0, 0, 1, 0, 0),
        ("activeclanchannel_find_listened", 0, 0, 0, 1, 0, 0),
        ("activeclansettings_find_affined", 0, 0, 0, 1, 0, 0),
        ("activeclansettings_find_listened", 0, 0, 0, 1, 0, 0),
        ("baseidkit", 2, 0, 0, 0, 0, 0),
        ("basecolour", 2, 0, 0, 0, 0, 0),
        ("setobj", 2, 0, 0, 0, 0, 0),
        ("setgender", 1, 0, 0, 0, 0, 0),
        ("cc_clearscripthooks", 0, 0, 0, 0, 0, 0),
        ("cam2_setfieldofview", 2, 0, 0, 0, 0, 0),
        ("cam2_setcollisionmode", 2, 0, 0, 0, 0, 0),
        ("cam2_setlookatentity_npc", 4, 0, 0, 0, 0, 0),
        ("cam2_setlookatentity_player", 4, 0, 0, 0, 0, 0),
        ("cam2_setlookatacceleration_axis", 4, 0, 0, 0, 0, 0),
        ("cam2_setlookatmaxspeed_axis", 4, 0, 0, 0, 0, 0),
        ("cam2_setpositionacceleration_axis", 4, 0, 0, 0, 0, 0),
        ("cam2_setpositionmaxspeed_axis", 4, 0, 0, 0, 0, 0),
        ("cam2_setlinearmovementmode", 1, 0, 0, 0, 0, 0),
        ("cam2_setlookatangularinterpolation", 1, 0, 0, 0, 0, 0),
        ("cam2_setpositionangularinterpolation", 1, 0, 0, 0, 0, 0),
        ("cam2_setsnapdistances", 3, 0, 0, 0, 0, 0),
        ("cam2_setspringproperties", 4, 0, 0, 0, 0, 0),
        ("highlight_set_category_colour", 4, 0, 0, 0, 0, 0),
        ("chat_setmode_affined_clan", 1, 0, 0, 0, 0, 0),
        ("cutscene2d_stop", 1, 0, 0, 0, 0, 0),
        ("deeplink_clear_index", 1, 0, 0, 0, 0, 0),
        ("picking_setmaxdistance", 1, 0, 0, 0, 0, 0),
        ("unknown_command_27", 1, 0, 0, 0, 0, 0),
        ("unknown_command_44", 1, 0, 0, 0, 0, 0),
        ("unknown_command_48", 1, 0, 0, 0, 0, 0),
        ("unknown_command_50", 1, 0, 0, 0, 0, 0),
        ("unknown_command_53", 1, 0, 0, 0, 0, 0),
        ("unknown_command_55", 1, 0, 0, 0, 0, 0),
        ("worldmap_3dview_enable", 1, 0, 0, 0, 0, 0),
        ("federated_login", 2, 0, 0, 0, 0, 0),
        ("highlight_set_category_mode", 2, 0, 0, 0, 0, 0),
        ("unknown_command_58", 2, 0, 0, 0, 0, 0),
        ("unknown_command_16", 4, 0, 0, 0, 0, 0),
        ("unknown_command_35", 4, 0, 0, 0, 0, 0),
        ("unknown_command_77", 3, 0, 0, 0, 0, 0),
        ("deeplink_get", 1, 0, 0, 1, 0, 0),
        ("notifications_islocalscheduled", 1, 0, 0, 1, 0, 0),
        ("preload_progress", 1, 0, 0, 1, 0, 0),
        ("stat", 1, 0, 0, 1, 0, 0),
        ("stat_base", 1, 0, 0, 1, 0, 0),
        ("stat_base_actual", 1, 0, 0, 1, 0, 0),
        ("stylesheet_has_parent", 1, 0, 0, 1, 0, 0),
        ("stylesheet_get_parent_id", 1, 0, 0, 1, 0, 0),
        ("unknown_command_81", 1, 0, 0, 1, 0, 0),
        ("stylesheet_has_value", 1, 1, 0, 1, 0, 0),
        ("unknown_command_20", 0, 0, 0, 1, 0, 0),
        ("field6563", 0, 0, 0, 1, 0, 0),
        ("struct_param", 2, 0, 0, 1, 0, 0),
        ("unknown_command_34", 2, 0, 0, 1, 0, 0),
        ("unknown_command_79", 2, 0, 0, 1, 0, 0),
        ("inv_stockbase", 2, 0, 0, 1, 0, 0),
        ("unknown_command_103", 2, 1, 0, 0, 0, 0),
        ("unknown_command_104", 1, 0, 0, 0, 0, 0),
        ("unknown_command_105", 1, 0, 0, 0, 0, 0),
        ("cam2_setdepthplanes", 2, 0, 0, 0, 0, 0),
        ("worldmap_3dview_setloddistance", 2, 0, 0, 0, 0, 0),
        ("highlight_reset_category_to_default", 1, 0, 0, 0, 0, 0),
        ("setminimapmask", 1, 0, 0, 0, 0, 0),
        ("highlight_set_localplayer_silhouette_mode", 1, 0, 0, 0, 0, 0),
        ("unknown_command_65", 1, 0, 0, 0, 0, 0),
        ("highlight_set_category_scale", 2, 0, 0, 0, 0, 0),
        ("unknown_command_7", 3, 0, 0, 0, 0, 0),
        ("unknown_command_62", 4, 0, 0, 1, 0, 0),
        ("field5283", 1, 0, 0, 1, 0, 0),
        ("field6317", 1, 0, 0, 0, 0, 0),
        ("get_entity_bounding_box", 0, 0, 0, 5, 0, 0),
        ("get_loc_bounding_box", 0, 0, 0, 5, 0, 0),
        ("get_obj_bounding_box", 0, 0, 0, 5, 0, 0),
        ("cc_getcharindexatpos", 2, 0, 0, 1, 0, 0),
        ("if_getcharindexatpos", 3, 0, 0, 1, 0, 0),
        ("cc_getcharposatindex", 1, 0, 0, 2, 0, 0),
        ("if_getcharposatindex", 2, 0, 0, 2, 0, 0),
        ("marketing_sendanalyticsevent", 0, 1, 0, 0, 0, 0),
        ("marketing_sendattributionevent", 0, 1, 0, 0, 0, 0),
        ("resume_countdialog_long", 0, 1, 0, 0, 0, 0),
        ("worldmap_3dview_getcoordfine", 3, 0, 0, 1, 0, 0),
        ("worldmap_coordinmap", 2, 0, 0, 1, 0, 0),
        ("stylesheet_get_value", 2, 1, 0, 1, 0, 0),
        ("if_set2dangle", 2, 0, 0, 0, 0, 0),
        ("if_sethflip", 2, 0, 0, 0, 0, 0),
        ("if_setnpcmodel", 2, 0, 0, 0, 0, 0),
        ("if_setvflip", 2, 0, 0, 0, 0, 0),
        ("oc_desc", 1, 0, 0, 0, 1, 0),
        ("store_lookup", 1, 1, 0, 10, 0, 3),
        ("store_init", 0, 1, 0, 0, 0, 0),
        ("steam_setachievement", 2, 1, 0, 1, 0, 0),
        ("cc_npc_setcustombodymodel", 2, 0, 0, 0, 0, 0),
        ("cc_npc_setcustomheadmodel", 2, 0, 0, 0, 0, 0),
        ("cc_npc_setcustomrecol", 2, 0, 0, 0, 0, 0),
        ("cc_npc_setcustomretex", 2, 0, 0, 0, 0, 0),
        ("if_npc_setcustombodymodel", 3, 0, 0, 0, 0, 0),
        ("if_npc_setcustomheadmodel", 3, 0, 0, 0, 0, 0),
        ("if_npc_setcustomrecol", 3, 0, 0, 0, 0, 0),
        ("if_npc_setcustomretex", 3, 0, 0, 0, 0, 0),
        ("cc_setcustombodyretex", 4, 0, 0, 0, 0, 0),
        ("cc_setcustombodyrecol", 4, 0, 0, 0, 0, 0),
        ("cc_setcustomheadretex", 4, 0, 0, 0, 0, 0),
        ("cc_setcustomheadrecol", 4, 0, 0, 0, 0, 0),
        ("if_setcustombodyretex", 5, 0, 0, 0, 0, 0),
        ("if_setcustombodyrecol", 5, 0, 0, 0, 0, 0),
        ("if_setcustomheadretex", 5, 0, 0, 0, 0, 0),
        ("if_setcustomheadrecol", 5, 0, 0, 0, 0, 0),
        ("cc_npc_setcustombodymodel_transformed", 10, 0, 0, 0, 0, 0),
        ("if_npc_setcustombodymodel_transformed", 11, 0, 0, 0, 0, 0),
        ("cc_createchild", 3, 0, 0, 0, 0, 0),
        ("if_createchild", 4, 0, 0, 0, 0, 0),
        ("db_listall", 1, 0, 0, 1, 0, 0),
        ("db_find_with_count", 3, 0, 0, 1, 0, 0),
        ("db_find_refine", 3, 0, 0, 1, 0, 0),
        ("db_findnext", 0, 0, 0, 1, 0, 0),
        ("db_getfield", 3, 0, 0, 1, 0, 0),
        ("db_getfieldcount", 2, 0, 0, 1, 0, 0),
        ("db_find_get", 1, 0, 0, 1, 0, 0),
        ("db_getrowtable", 1, 0, 0, 1, 0, 0),
        ("db_filter_find", 5, 0, 0, 1, 0, 0),
        ("db_filter_value", 4, 0, 0, 1, 0, 0),
        ("db_filter_unknown", 1, 0, 0, 1, 0, 0),
        ("db_filter_combine", 2, 0, 0, 1, 0, 0),
        ("db_filter_column", 3, 0, 0, 1, 0, 0),
        ("db_filter_substring", 2, 1, 0, 1, 0, 0),
        ("if_setop", 2, 1, 0, 0, 0, 0),
        ("if_setopbase", 1, 1, 0, 0, 0, 0),
        ("if_setpausetext", 1, 1, 0, 0, 0, 0),
        ("if_settargetverb", 1, 1, 0, 0, 0, 0),
        ("if_setopcursor", 3, 0, 0, 0, 0, 0),
        ("if_setopchar", 3, 0, 0, 0, 0, 0),
        ("if_setoptkey", 3, 0, 0, 0, 0, 0),
        ("if_settargetcursors", 3, 0, 0, 0, 0, 0),
        ("if_setoptchar", 2, 0, 0, 0, 0, 0),
        ("if_setoptkeyignoreheld", 2, 0, 0, 0, 0, 0),
        ("if_setopkeyignoreheld", 2, 0, 0, 0, 0, 0),
        ("if_setdragrenderbehaviour", 2, 0, 0, 0, 0, 0),
        ("if_setdragdeadzone", 2, 0, 0, 0, 0, 0),
        ("if_setdragdeadtime", 2, 0, 0, 0, 0, 0),
        ("if_setmouseovercursor", 2, 0, 0, 0, 0, 0),
        ("if_settargetopcursor", 2, 0, 0, 0, 0, 0),
        ("if_setmaxlines", 2, 0, 0, 0, 0, 0),
        ("if_setmodelanim", 2, 0, 0, 0, 0, 0),
        ("if_setnpchead", 2, 0, 0, 0, 0, 0),
        ("if_setplayerhead_self", 2, 0, 0, 0, 0, 0),
        ("if_setopkey", 4, 0, 0, 0, 0, 0),
        ("if_setopkeyrate", 4, 0, 0, 0, 0, 0),
        ("if_setoptkeyrate", 3, 0, 0, 0, 0, 0),
        ("if_setdraggable", 3, 0, 0, 0, 0, 0)
    ];
    proof {
        assert(v@.map_values(|e: EffectRow| row_view(e)) =~= manual_table());
    }
    v
}

/// The hand-checked per-stack effect of `command`, if it has one.
pub fn manual_opcode_stack_effect(command: &str) -> (r: Option<OpcodeStackEffect>)
    ensures
        r == table_effect(manual_table(), command@),
{
    let t = manual_entries();
    let ghost tv = t@.map_values(|e: EffectRow| row_view(e));
    let mut i: usize = 0;
    proof {
        assert(tv.skip(0) =~= tv);
    }
    while i < t.len()
        invariant
            i <= t@.len(),
            tv == t@.map_values(|e: EffectRow| row_view(e)),
            tv == manual_table(),
            table_effect(tv, command@) == table_effect(tv.skip(i as int), command@),
        decreases t.len() - i,
    {
        proof {
            assert(tv.skip(i as int).drop_first() =~= tv.skip(i + 1));
            assert(tv.skip(i as int)[0] == row_view(t@[i as int]));
        }
        if str_eq(t[i].0, command) {
            return Some(
                OpcodeStackEffect {
                    int_pops: t[i].1 as usize,
                    obj_pops: t[i].2 as usize,
                    long_pops: t[i].3 as usize,
                    int_pushes: t[i].4 as usize,
                    obj_pushes: t[i].5 as usize,
                    long_pushes: t[i].6 as usize,
                },
            );
        }
        i = i + 1;
    }
    None
}

/// Every count of an effect fits a byte.
pub open spec fn effect_bounded(e: OpcodeStackEffect) -> bool {
    e.int_pops < 256 && e.obj_pops < 256 && e.long_pops < 256 && e.int_pushes < 256 && e.obj_pushes < 256
        && e.long_pushes < 256
}

proof fn lemma_table_effect_bounded(t: Seq<(Seq<char>, u8, u8, u8, u8, u8, u8)>, c: Seq<char>)
    ensures
        table_effect(t, c) matches Some(e) ==> effect_bounded(e),
    decreases t.len(),
{
    if t.len() > 0 && t[0].0 != c {
        lemma_table_effect_bounded(t.drop_first(), c);
    }
}

/// The per-stack effect of `command`: the hand-checked table, then the
/// extracted stack-effects table, then the command signatures.
pub fn opcode_stack_effect(command: &str, tables: &EffectTables) -> (r: Option<OpcodeStackEffect>)
    ensures
        r == effect_from_tables(command@, tables.stack_effects_view(), tables.signatures_view()),
        r matches Some(e) ==> effect_fits(e),
{
    proof {
        use_type_invariant(tables);
        lemma_tables_fit(command@, tables.stack_effects@, tables.signatures@);
    }
    opcode_stack_effect_from_tables(command, tables.stack_effects.as_str(), &tables.signatures)
}

/// An effect on the int stack only, as a value.
pub open spec fn int_effect_spec(pops: usize, pushes: usize) -> OpcodeStackEffect {
    OpcodeStackEffect {
        int_pops: pops,
        obj_pops: 0,
        long_pops: 0,
        int_pushes: pushes,
        obj_pushes: 0,
        long_pushes: 0,
    }
}

/// The effect of `c` in build `build`: the commands whose arity changed
/// between builds, else what the tables give.
pub open spec fn build_effect(c: Seq<char>, build: u32, stack_effects: Seq<char>, signatures: Seq<String>) -> Option<
    OpcodeStackEffect,
> {
    if (c == "activeclanchannel_find_affined"@ || c == "activeclansettings_find_affined"@) && build >= 938 {
        Some(int_effect_spec(1, 1))
    } else if c == "tostring"@ && build >= 919 {
        Some(OpcodeStackEffect { int_pops: 2, obj_pops: 0, long_pops: 0, int_pushes: 0, obj_pushes: 1, long_pushes: 0 })
    } else if c == "tostring_long"@ && build >= 936 {
        Some(OpcodeStackEffect { int_pops: 1, obj_pops: 0, long_pops: 1, int_pushes: 0, obj_pushes: 1, long_pushes: 0 })
    } else if c == "lobby_enterlobby_social_network"@ && build >= 919 {
        Some(int_effect_spec(4, 0))
    } else if c == "cam2_setpositionentity_npc"@ || c == "cam2_setpositionentity_player"@ {
        if build >= 919 {
            Some(int_effect_spec(8, 0))
        } else {
            Some(int_effect_spec(7, 0))
        }
    } else {
        effect_from_tables(c, stack_effects, signatures)
    }
}

/// The per-stack effect of `command` in build `build`: a few commands
/// changed arity between builds.
pub fn opcode_stack_effect_for_build(command: &str, build: u32, tables: &EffectTables) -> (r: Option<
    OpcodeStackEffect,
>)
    ensures
        r == build_effect(command@, build, tables.stack_effects_view(), tables.signatures_view()),
        r matches Some(e) ==> effect_fits(e),
{
    let c = chars_of(command);
    if (crate::text::chars_eq(&c, "activeclanchannel_find_affined") || crate::text::chars_eq(
        &c,
        "activeclansettings_find_affined",
    )) && build >= 938 {
        return Some(int_effect(1, 1));
    }
    if crate::text::chars_eq(&c, "tostring") && build >= 919 {
        return Some(
            OpcodeStackEffect {
                int_pops: 2,
                obj_pops: 0,
                long_pops: 0,
                int_pushes: 0,
                obj_pushes: 1,
                long_pushes: 0,
            },
        );
    }
    if crate::text::chars_eq(&c, "tostring_long") && build >= 936 {
        return Some(
            OpcodeStackEffect {
                int_pops: 1,
                obj_pops: 0,
                long_pops: 1,
                int_pushes: 0,
                obj_pushes: 1,
                long_pushes: 0,
            },
        );
    }
    if crate::text::chars_eq(&c, "lobby_enterlobby_social_network") && build >= 919 {
        return Some(int_effect(4, 0));
    }
    if crate::text::chars_eq(&c, "cam2_setpositionentity_npc") || crate::text::chars_eq(
        &c,
        "cam2_setpositionentity_player",
    ) {
        if build >= 919 {
            return Some(int_effect(8, 0));
        }
        return Some(int_effect(7, 0));
    }
    opcode_stack_effect(command, tables)
}

/// A fixed-effect row: the command, its pops and its pushes.
pub type FixedRow = (&'static str, u8, u8);

/// A fixed-effect row as a value.
pub open spec fn fixed_view(r: FixedRow) -> (Seq<char>, u8, u8) {
    (r.0@, r.1, r.2)
}

/// Part of the commands whose (pops, pushes) is the same in every build, as values.
pub open spec fn fixed_table_a() -> Seq<(Seq<char>, u8, u8)> {
    seq![
        ("push_constant_int"@, 0, 1),
        ("push_long_constant"@, 0, 1),
        ("push_constant_string"@, 0, 1),
        ("push_var"@, 0, 1),
        ("push_varbit"@, 0, 1),
        ("push_int_local"@, 0, 1),
        ("push_string_local"@, 0, 1),
        ("push_long_local"@, 0, 1),
        ("push_varc_int"@, 0, 1),
        ("push_varc_string"@, 0, 1),
        ("push_varclan"@, 0, 1),
        ("push_varclanbit"@, 0, 1),
        ("push_varclan_long"@, 0, 1),
        ("push_varclan_string"@, 0, 1),
        ("push_varclansetting"@, 0, 1),
        ("push_varclansettingbit"@, 0, 1),
        ("push_varclansetting_long"@, 0, 1),
        ("push_varclansetting_string"@, 0, 1),
        ("push_array_int"@, 1, 1),
        ("push_array_string"@, 1, 1),
        ("push_array_int_leave_index_on_stack"@, 1, 2),
        ("push_array_int_and_index"@, 1, 2),
        ("pop_int_local"@, 1, 0),
        ("pop_string_local"@, 1, 0),
        ("pop_long_local"@, 1, 0),
        ("pop_var"@, 1, 0),
        ("pop_varbit"@, 1, 0),
        ("pop_varc_int"@, 1, 0),
        ("pop_varc_string"@, 1, 0),
        ("pop_int_discard"@, 1, 0),
        ("pop_string_discard"@, 1, 0),
        ("pop_long_discard"@, 1, 0),
        ("pop_array_int"@, 2, 0),
        ("pop_array_string"@, 2, 0),
        ("pop_array_int_leave_value_on_stack"@, 2, 1),
        ("add"@, 2, 1),
        ("sub"@, 2, 1),
        ("multiply"@, 2, 1),
        ("divide"@, 2, 1),
        ("modulo"@, 2, 1),
        ("compare"@, 2, 1),
        ("and"@, 2, 1),
        ("or"@, 2, 1),
        ("lowercase"@, 1, 1),
        ("uppercase"@, 1, 1),
        ("length"@, 1, 1),
        ("neg"@, 1, 1),
        ("define_array"@, 1, 0),
        ("array_sort"@, 3, 0),
        ("branch"@, 0, 0),
        ("branch_if_true"@, 1, 0),
        ("branch_if_false"@, 1, 0),
        ("branch_not"@, 2, 0),
        ("branch_equals"@, 2, 0),
        ("branch_less_than"@, 2, 0),
        ("branch_greater_than"@, 2, 0),
        ("branch_less_than_or_equals"@, 2, 0),
        ("branch_greater_than_or_equals"@, 2, 0),
        ("long_branch_not"@, 2, 0),
        ("long_branch_equals"@, 2, 0),
        ("long_branch_less_than"@, 2, 0),
        ("long_branch_greater_than"@, 2, 0),
        ("long_branch_less_than_or_equals"@, 2, 0),
        ("long_branch_greater_than_or_equals"@, 2, 0),
        ("switch"@, 1, 0),
        ("return"@, 0, 0),
        ("player_group_find"@, 0, 1),
        ("player_group_member_count"@, 0, 1),
        ("player_group_banned_count"@, 0, 1),
        ("player_group_get_max_size"@, 0, 1),
        ("player_group_get_create_mins_since_epoch"@, 0, 1),
        ("player_group_get_create_seconds_to_now"@, 0, 1),
        ("player_group_is_members_only"@, 0, 1),
        ("player_group_get_overall_status"@, 0, 1),
        ("player_group_get_owner_slot"@, 0, 1),
        ("player_group_get_displayname"@, 0, 1),
        ("activeclanchannel_find_listened"@, 0, 1),
        ("activeclanchannel_getclanname"@, 0, 1),
        ("activeclanchannel_getrankkick"@, 0, 1),
        ("activeclanchannel_getranktalk"@, 0, 1),
        ("activeclanchannel_getusercount"@, 0, 1),
        ("activeclansettings_find_listened"@, 0, 1),
        ("activeclansettings_getallowunaffined"@, 0, 1),
        ("activeclansettings_getaffinedcount"@, 0, 1),
        ("activeclansettings_getclanname"@, 0, 1),
        ("activeclansettings_getbannedcount"@, 0, 1),
        ("activeclansettings_getcoinshare"@, 0, 1),
        ("activeclansettings_getcurrentowner_slot"@, 0, 1),
        ("activeclansettings_getrankkick"@, 0, 1),
        ("activeclansettings_getranklootshare"@, 0, 1),
        ("activeclansettings_getranktalk"@, 0, 1),
        ("activeclansettings_getreplacementowner_slot"@, 0, 1),
        ("clanprofile_find"@, 0, 1),
        ("player_group_member_get_rank"@, 1, 1),
        ("player_group_member_get_team"@, 1, 1),
        ("player_group_member_get_last_seen_node_id"@, 1, 1),
        ("player_group_member_get_status"@, 1, 1),
        ("player_group_member_is_online"@, 1, 1),
        ("player_group_member_is_member"@, 1, 1),
        ("player_group_member_get_displayname"@, 1, 1),
        ("player_group_member_is_owner"@, 1, 1),
        ("player_group_banned_get_displayname"@, 1, 1),
        ("activeclanchannel_getuserdisplayname"@, 1, 1),
        ("activeclanchannel_getuserrank"@, 1, 1),
        ("activeclanchannel_getuserworld"@, 1, 1),
        ("activeclanchannel_getsorteduserslot"@, 1, 1),
        ("activeclansettings_getaffineddisplayname"@, 1, 1),
        ("activeclansettings_getaffinedrank"@, 1, 1),
        ("activeclansettings_getaffinedmuted"@, 1, 1),
        ("activeclansettings_getbanneddisplayname"@, 1, 1),
        ("activeclansettings_getaffinedjoinruneday"@, 1, 1),
        ("activeclansettings_getsortedaffinedslot"@, 1, 1),
        ("player_group_member_get_join_xp"@, 3, 1),
        ("player_group_member_get_same_world_var"@, 3, 1),
        ("activeclansettings_getaffinedextrainfo"@, 3, 1),
        ("activeclanchannel_getuserslot"@, 1, 1),
        ("activeclansettings_getaffinedslot"@, 1, 1),
        ("activeclanchannel_kickuser"@, 1, 0),
        ("affinedclansettings_addbanned_fromchannel"@, 1, 0),
        ("affinedclansettings_setmuted_fromchannel"@, 2, 0),
        ("login_inprogress"@, 0, 1),
        ("login_queue_position"@, 0, 1),
        ("login_disallowtrigger"@, 0, 1),
        ("create_reply"@, 0, 1),
        ("create_email_validate_reply"@, 0, 1),
        ("create_name_validate_reply"@, 0, 1),
        ("create_connect_reply"@, 0, 1),
        ("shop_requestdatastatus"@, 0, 1),
        ("shop_getcategorycount"@, 0, 1),
        ("autosetup_getlevel"@, 0, 1),
        ("create_under13"@, 0, 1),
        ("create_suggest_name_reply"@, 0, 2),
        ("create_get_email"@, 0, 1),
        ("sso_displayname"@, 0, 1),
        ("get_currentcursor"@, 0, 1),
        ("get_mousex"@, 0, 1),
        ("get_mousey"@, 0, 1),
        ("get_mousebuttons"@, 0, 3),
        ("get_active_minimenu_entry"@, 0, 4),
        ("get_second_minimenu_entry"@, 0, 4),
        ("get_minimenu_length"@, 0, 2)
    ]
}

/// Part of the commands whose (pops, pushes) is the same in every build, as values.
pub open spec fn fixed_table_b() -> Seq<(Seq<char>, u8, u8)> {
    seq![
        ("get_minimenu_target"@, 0, 3),
        ("worldlist_start"@, 0, 8),
        ("worldlist_next"@, 0, 8),
        ("worldlist_fetch"@, 0, 1),
        ("worldlist_specific_thisworld"@, 0, 1),
        ("worldlist_specific"@, 1, 7),
        ("worldlist_switch"@, 2, 1),
        ("worldlist_sort"@, 4, 0),
        ("worldlist_autoworld"@, 0, 0),
        ("worldlist_pingworlds"@, 1, 0),
        ("pushCanvasSize"@, 0, 2),
        ("viewport_geteffectivesize"@, 0, 2),
        ("pushZeroInsets"@, 0, 4),
        ("pushFontMetrics"@, 1, 5),
        ("fullscreen_enter"@, 2, 1),
        ("fullscreen_modecount"@, 0, 1),
        ("window_getinsets"@, 0, 4),
        ("targetmode_active"@, 0, 1),
        ("if_get_gamescreen"@, 0, 1),
        ("interface_getpickingradius"@, 0, 1),
        ("if_hassub"@, 1, 1),
        ("if_getnextsubid"@, 1, 1),
        ("if_hassubmodal"@, 2, 1),
        ("if_hassuboverlay"@, 2, 1),
        ("setup_messagebox"@, 11, 0),
        ("formatminimenu"@, 12, 0),
        ("minimenuopen"@, 2, 1),
        ("setsubmenuminlength"@, 1, 0),
        ("if_set_gamescreen_enabled"@, 1, 0),
        ("interface_setpickingradius"@, 1, 0),
        ("if_opensubclient"@, 2, 0),
        ("if_closesubclient"@, 1, 0),
        ("opplayer"@, 2, 0),
        ("opplayert"@, 1, 0),
        ("defaultminimenu"@, 0, 0),
        ("minimenu_close"@, 0, 0),
        ("if_close"@, 0, 0),
        ("force_interface_drag"@, 0, 0),
        ("cancel_interface_drag"@, 0, 0),
        ("targetmode_cancel"@, 0, 0),
        ("login_accountappeal"@, 1, 1),
        ("shop_getindexforcategoryid"@, 1, 1),
        ("shop_getcategoryid"@, 1, 1),
        ("shop_getproductcount"@, 1, 1),
        ("shop_getcategorydescription"@, 1, 1),
        ("shop_isproductavailable"@, 1, 1),
        ("shop_isproductrecommended"@, 1, 1),
        ("shop_getindexforcategoryname"@, 1, 1),
        ("lobby_entergamereply"@, 0, 1),
        ("lobby_enterlobbyreply"@, 0, 1),
        ("shop_purchaseitemstatus"@, 0, 1),
        ("sso_available"@, 0, 1),
        ("shop_getproductdetails"@, 2, 9),
        ("notifications_sendlocal"@, 4, 1),
        ("notifications_sendgroupedlocal"@, 6, 1),
        ("login_request_social_network"@, 3, 0),
        ("lobby_entergame"@, 2, 0),
        ("lobby_enterlobby"@, 4, 0),
        ("lobby_enterlobby_sso"@, 2, 0),
        ("create_createrequest"@, 5, 0),
        ("db_listall"@, 1, 1),
        ("db_find"@, 2, 0),
        ("db_find_with_count"@, 2, 1),
        ("db_findnext"@, 0, 1),
        ("db_getfield"@, 3, 1),
        ("db_getfieldcount"@, 2, 1),
        ("db_find_refine"@, 2, 1),
        ("db_find_get"@, 1, 1),
        ("db_getrowtable"@, 1, 1),
        ("db_filter_find"@, 5, 1),
        ("db_filter_value"@, 4, 1),
        ("db_filter_unknown"@, 1, 1),
        ("db_filter_combine"@, 2, 1),
        ("db_filter_substring"@, 3, 1),
        ("db_filter_column"@, 3, 1),
        ("cam2_setlookatmode"@, 1, 0),
        ("cam2_setpositionmode"@, 1, 0),
        ("cam2_setpositionentity_npc"@, 7, 0),
        ("cam2_setpositionentity_player"@, 7, 0),
        ("error"@, 1, 0),
        ("create_availablerequest"@, 1, 0),
        ("create_name_availablerequest"@, 1, 0),
        ("create_step_reached"@, 1, 0),
        ("shop_open"@, 1, 0),
        ("notifications_cancellocal"@, 1, 0),
        ("shop_purchaseitem"@, 1, 0),
        ("marketing_sendevent"@, 1, 0),
        ("marketing_sendanalyticsevent"@, 1, 0),
        ("marketing_sendattributionevent"@, 1, 0),
        ("cam2_setdepthplanes"@, 2, 0),
        ("worldmap_3dview_setloddistance"@, 2, 0),
        ("highlight_reset_category_to_default"@, 1, 0),
        ("setminimapmask"@, 1, 0),
        ("highlight_set_localplayer_silhouette_mode"@, 1, 0),
        ("unknown_command_65"@, 1, 0),
        ("highlight_set_category_scale"@, 2, 0),
        ("unknown_command_7"@, 3, 0),
        ("unknown_command_62"@, 4, 1),
        ("field5283"@, 1, 1),
        ("field6317"@, 1, 0),
        ("get_entity_bounding_box"@, 0, 5),
        ("get_loc_bounding_box"@, 0, 5),
        ("get_obj_bounding_box"@, 0, 5),
        ("worldmap_3dview_getcoordfine"@, 3, 1),
        ("worldmap_coordinmap"@, 2, 1),
        ("create_suggest_name_request"@, 0, 0),
        ("create_connectrequest"@, 0, 0),
        ("login_resetreply"@, 0, 0),
        ("login_cancel"@, 0, 0),
        ("login_continue"@, 0, 0),
        ("shop_requestdata"@, 0, 0),
        ("shop_applypendingtransactions"@, 0, 0),
        ("marketing_init"@, 0, 0),
        ("notifications_init"@, 0, 0),
        ("notifications_opensettings"@, 0, 0),
        ("autosetup_setultra"@, 0, 0),
        ("autosetup_sethigh"@, 0, 0),
        ("autosetup_setmedium"@, 0, 0),
        ("autosetup_setlow"@, 0, 0),
        ("autosetup_setmin"@, 0, 0),
        ("autosetup_setcustom"@, 0, 0),
        ("autosetup_blackflaglast"@, 0, 0),
        ("fullscreen_exit"@, 0, 0),
        ("create_setunder13"@, 0, 0),
        ("cc_settext"@, 1, 0),
        ("cc_setgraphic"@, 1, 0),
        ("cc_sethide"@, 1, 0),
        ("cc_setcolour"@, 1, 0),
        ("cc_setfill"@, 1, 0),
        ("cc_settrans"@, 1, 0),
        ("cc_setlinewid"@, 1, 0),
        ("cc_setmodel"@, 1, 0),
        ("cc_set2dangle"@, 1, 0),
        ("cc_setlinedirection"@, 1, 0),
        ("cc_settiling"@, 1, 0),
        ("cc_setmodelanim"@, 1, 0),
        ("cc_setmodelorthog"@, 1, 0),
        ("cc_setmodelzoom"@, 1, 0),
        ("cc_settextfont"@, 1, 0),
        ("cc_settextshadow"@, 1, 0),
        ("cc_settextantimacro"@, 1, 0)
    ]
}

/// Part of the commands whose (pops, pushes) is the same in every build, as values.
pub open spec fn fixed_table_c() -> Seq<(Seq<char>, u8, u8)> {
    seq![
        ("cc_setoutline"@, 1, 0),
        ("cc_setgraphicshadow"@, 1, 0),
        ("cc_setclickmask"@, 1, 0),
        ("cc_setheld"@, 1, 0),
        ("cc_setfontmono"@, 1, 0),
        ("cc_setnoclickthrough"@, 1, 0),
        ("cc_setstylesheet"@, 1, 0),
        ("cc_setscrollpos"@, 2, 0),
        ("cc_setscrollsize"@, 2, 0),
        ("cc_setaspect"@, 2, 0),
        ("cc_setmodelorigin"@, 2, 0),
        ("cc_setparam"@, 2, 0),
        ("cc_setparam_int"@, 2, 0),
        ("cc_setparam_string"@, 2, 0),
        ("cc_setobject"@, 2, 0),
        ("cc_setobject_nonum"@, 2, 0),
        ("cc_setobject_alwaysnum"@, 2, 0),
        ("cc_setobject_wearcol"@, 2, 0),
        ("cc_setobject_wearcol_nonum"@, 2, 0),
        ("cc_setobject_wearcol_alwaysnum"@, 2, 0),
        ("cc_setobject_long"@, 2, 0),
        ("cc_setobject_alwaysnum_long"@, 2, 0),
        ("cc_setobject_wearcol_long"@, 2, 0),
        ("cc_setobject_wearcol_alwaysnum_long"@, 2, 0),
        ("cc_setobject_highres"@, 1, 0),
        ("cc_settextalign"@, 3, 0),
        ("cc_setrecol"@, 3, 0),
        ("cc_setretex"@, 3, 0),
        ("cc_setposition"@, 4, 0),
        ("cc_setsize"@, 4, 0),
        ("cc_setmodeltint"@, 4, 0),
        ("cc_setmodelangle"@, 6, 0),
        ("cc_setmodellighting"@, 10, 0),
        ("cc_delete"@, 0, 0),
        ("cc_sendtofront"@, 0, 0),
        ("cc_sendtoback"@, 0, 0),
        ("cc_resetmodellighting"@, 0, 0),
        ("cc_clearops"@, 0, 0),
        ("cc_callonresize"@, 0, 0),
        ("cc_resume_pausebutton"@, 0, 0),
        ("cc_scriptqueue_clear"@, 0, 0),
        ("cc_deleteall"@, 1, 0),
        ("if_sendtofront"@, 1, 0),
        ("if_sendtoback"@, 1, 0),
        ("cc_find"@, 2, 1),
        ("cc_find_parent"@, 0, 1),
        ("cc_button_setcantoggle"@, 1, 0),
        ("cc_button_settoggled"@, 1, 0),
        ("cc_button_setlinkobjoptions"@, 2, 0),
        ("cc_scriptqueue_clear_script"@, 2, 0),
        ("cc_grid_setlayoutparams"@, 3, 0),
        ("cc_button_settextareasizeoffsets"@, 4, 0),
        ("if_find"@, 1, 1),
        ("if_gettext"@, 1, 1),
        ("if_settext"@, 2, 0),
        ("if_sethide"@, 2, 0),
        ("if_setcolour"@, 2, 0),
        ("if_setfill"@, 2, 0),
        ("if_settrans"@, 2, 0),
        ("if_setlinewid"@, 2, 0),
        ("if_setgraphic"@, 2, 0),
        ("if_setmodel"@, 2, 0),
        ("if_setmodelanim"@, 2, 0),
        ("if_setmodelorthog"@, 2, 0),
        ("if_setmodelzoom"@, 2, 0),
        ("if_settextfont"@, 2, 0),
        ("if_settextshadow"@, 2, 0),
        ("if_settextantimacro"@, 2, 0),
        ("if_setoutline"@, 2, 0),
        ("if_setgraphicshadow"@, 2, 0),
        ("if_setclickmask"@, 2, 0),
        ("if_setheld"@, 2, 0),
        ("if_setfontmono"@, 2, 0),
        ("if_setlinedirection"@, 2, 0),
        ("if_setnoclickthrough"@, 2, 0),
        ("if_setstylesheet"@, 2, 0),
        ("if_settiling"@, 2, 0),
        ("if_resetmodellighting"@, 2, 0),
        ("if_setonclick"@, 2, 0),
        ("if_setonvartransmit"@, 2, 0),
        ("if_setonstocktransmit"@, 2, 0),
        ("if_setoninvtransmit"@, 2, 0),
        ("if_setscrollpos"@, 3, 0),
        ("if_setscrollsize"@, 3, 0),
        ("if_setaspect"@, 3, 0),
        ("if_setmodelorigin"@, 3, 0),
        ("if_setparam_int"@, 3, 0),
        ("if_setparam_string"@, 3, 0),
        ("if_setobject"@, 3, 0),
        ("if_setobject_nonum"@, 3, 0),
        ("if_setobject_alwaysnum"@, 3, 0),
        ("if_setobject_wearcol"@, 3, 0),
        ("if_setobject_wearcol_nonum"@, 3, 0),
        ("if_setobject_wearcol_alwaysnum"@, 3, 0),
        ("if_setobject_long"@, 3, 0),
        ("if_setobject_alwaysnum_long"@, 3, 0),
        ("if_setobject_wearcol_long"@, 3, 0),
        ("if_setobject_wearcol_alwaysnum_long"@, 3, 0),
        ("if_setobject_highres"@, 2, 0),
        ("if_button_setcantoggle"@, 2, 0),
        ("if_button_settoggled"@, 2, 0),
        ("if_scriptqueue_clear_script"@, 2, 0),
        ("if_settextalign"@, 4, 0),
        ("if_setrecol"@, 4, 0),
        ("if_setretex"@, 4, 0),
        ("if_button_setlinkobjoptions"@, 3, 0),
        ("if_grid_setlayoutparams"@, 4, 0),
        ("if_setposition"@, 5, 0),
        ("if_setsize"@, 5, 0),
        ("if_setmodeltint"@, 5, 0),
        ("if_button_settextareasizeoffsets"@, 5, 0),
        ("if_setmodelangle"@, 7, 0),
        ("if_setmodellighting"@, 11, 0),
        ("if_resume_pausebutton"@, 1, 0),
        ("if_scriptqueue_clear"@, 1, 0),
        ("cc_create"@, 3, 0),
        ("baseidkit"@, 2, 0),
        ("basecolour"@, 2, 0),
        ("setobj"@, 2, 0),
        ("setgender"@, 1, 0),
        ("quickchat_dynamic_command_add"@, 2, 1),
        ("cc_param"@, 1, 1),
        ("oc_param"@, 2, 1),
        ("nc_param"@, 2, 1),
        ("lc_param"@, 2, 1),
        ("struct_param"@, 2, 1),
        ("seq_param"@, 2, 1),
        ("mec_param"@, 2, 1),
        ("quest_param"@, 2, 1),
        ("enum_string"@, 2, 1),
        ("enum_hasoutput"@, 3, 1),
        ("enum_getreversecount"@, 3, 1),
        ("enum_hasoutput_string"@, 2, 1),
        ("enum_getreversecount_string"@, 2, 1),
        ("enum"@, 4, 1),
        ("_enum"@, 4, 1),
        ("enum_getoutputcount"@, 1, 1),
        ("enum_getreverseindex"@, 5, 1),
        ("enum_getreverseindex_string"@, 4, 1),
        ("string_length"@, 1, 1)
    ]
}

/// The commands whose (pops, pushes) is the same in every build, as
/// values, in the order they are looked up.
pub open spec fn fixed_table() -> Seq<(Seq<char>, u8, u8)> {
    fixed_table_a() + fixed_table_b() + fixed_table_c()
}

/// The (pops, pushes) of the first row for `c` in `t`.
pub open spec fn fixed_effect(t: Seq<(Seq<char>, u8, u8)>, c: Seq<char>) -> Option<StackEffect>
    decreases t.len(),
{
    if t.len() == 0 {
        None
    } else if t[0].0 == c {
        Some(StackEffect { pops: t[0].1 as usize, pushes: t[0].2 as usize })
    } else {
        fixed_effect(t.drop_first(), c)
    }
}

proof fn lemma_fixed_effect_bounded(t: Seq<(Seq<char>, u8, u8)>, c: Seq<char>)
    ensures
        fixed_effect(t, c) matches Some(e) ==> e.pops < 256 && e.pushes < 256,
    decreases t.len(),
{
    if t.len() > 0 && t[0].0 != c {
        lemma_fixed_effect_bounded(t.drop_first(), c);
    }
}

fn fixed_entries_a() -> (r: Vec<FixedRow>)
    ensures
        r@.map_values(|e: FixedRow| fixed_view(e)) == fixed_table_a(),
{
    let v: Vec<FixedRow> = vec![
        ("push_constant_int", 0, 1),
        ("push_long_constant", 0, 1),
        ("push_constant_string", 0, 1),
        ("push_var", 0, 1),
        ("push_varbit", 0, 1),
        ("push_int_local", 0, 1),
        ("push_string_local", 0, 1),
        ("push_long_local", 0, 1),
        ("push_varc_int", 0, 1),
        ("push_varc_string", 0, 1),
        ("push_varclan", 0, 1),
        ("push_varclanbit", 0, 1),
        ("push_varclan_long", 0, 1),
        ("push_varclan_string", 0, 1),
        ("push_varclansetting", 0, 1),
        ("push_varclansettingbit", 0, 1),
        ("push_varclansetting_long", 0, 1),
        ("push_varclansetting_string", 0, 1),
        ("push_array_int", 1, 1),
        ("push_array_string", 1, 1),
        ("push_array_int_leave_index_on_stack", 1, 2),
        ("push_array_int_and_index", 1, 2),
        ("pop_int_local", 1, 0),
        ("pop_string_local", 1, 0),
        ("pop_long_local", 1, 0),
        ("pop_var", 1, 0),
        ("pop_varbit", 1, 0),
        ("pop_varc_int", 1, 0),
        ("pop_varc_string", 1, 0),
        ("pop_int_discard", 1, 0),
        ("pop_string_discard", 1, 0),
        ("pop_long_discard", 1, 0),
        ("pop_array_int", 2, 0),
        ("pop_array_string", 2, 0),
        ("pop_array_int_leave_value_on_stack", 2, 1),
        ("add", 2, 1),
        ("sub", 2, 1),
        ("multiply", 2, 1),
        ("divide", 2, 1),
        ("modulo", 2, 1),
        ("compare", 2, 1),
        ("and", 2, 1),
        ("or", 2, 1),
        ("lowercase", 1, 1),
        ("uppercase", 1, 1),
        ("length", 1, 1),
        ("neg", 1, 1),
        ("define_array", 1, 0),
        ("array_sort", 3, 0),
        ("branch", 0, 0),
        ("branch_if_true", 1, 0),
        ("branch_if_false", 1, 0),
        ("branch_not", 2, 0),
        ("branch_equals", 2, 0),
        ("branch_less_than", 2, 0),
        ("branch_greater_than", 2, 0),
        ("branch_less_than_or_equals", 2, 0),
        ("branch_greater_than_or_equals", 2, 0),
        ("long_branch_not", 2, 0),
        ("long_branch_equals", 2, 0),
        ("long_branch_less_than", 2, 0),
        ("long_branch_greater_than", 2, 0),
        ("long_branch_less_than_or_equals", 2, 0),
        ("long_branch_greater_than_or_equals", 2, 0),
        ("switch", 1, 0),
        ("return", 0, 0),
        ("player_group_find", 0, 1),
        ("player_group_member_count", 0, 1),
        ("player_group_banned_count", 0, 1),
        ("player_group_get_max_size", 0, 1),
        ("player_group_get_create_mins_since_epoch", 0, 1),
        ("player_group_get_create_seconds_to_now", 0, 1),
        ("player_group_is_members_only", 0, 1),
        ("player_group_get_overall_status", 0, 1),
        ("player_group_get_owner_slot", 0, 1),
        ("player_group_get_displayname", 0, 1),
        ("activeclanchannel_find_listened", 0, 1),
        ("activeclanchannel_getclanname", 0, 1),
        ("activeclanchannel_getrankkick", 0, 1),
        ("activeclanchannel_getranktalk", 0, 1),
        ("activeclanchannel_getusercount", 0, 1),
        ("activeclansettings_find_listened", 0, 1),
        ("activeclansettings_getallowunaffined", 0, 1),
        ("activeclansettings_getaffinedcount", 0, 1),
        ("activeclansettings_getclanname", 0, 1),
        ("activeclansettings_getbannedcount", 0, 1),
        ("activeclansettings_getcoinshare", 0, 1),
        ("activeclansettings_getcurrentowner_slot", 0, 1),
        ("activeclansettings_getrankkick", 0, 1),
        ("activeclansettings_getranklootshare", 0, 1),
        ("activeclansettings_getranktalk", 0, 1),
        ("activeclansettings_getreplacementowner_slot", 0, 1),
        ("clanprofile_find", 0, 1),
        ("player_group_member_get_rank", 1, 1),
        ("player_group_member_get_team", 1, 1),
        ("player_group_member_get_last_seen_node_id", 1, 1),
        ("player_group_member_get_status", 1, 1),
        ("player_group_member_is_online", 1, 1),
        ("player_group_member_is_member", 1, 1),
        ("player_group_member_get_displayname", 1, 1),
        ("player_group_member_is_owner", 1, 1),
        ("player_group_banned_get_displayname", 1, 1),
        ("activeclanchannel_getuserdisplayname", 1, 1),
        ("activeclanchannel_getuserrank", 1, 1),
        ("activeclanchannel_getuserworld", 1, 1),
        ("activeclanchannel_getsorteduserslot", 1, 1),
        ("activeclansettings_getaffineddisplayname", 1, 1),
        ("activeclansettings_getaffinedrank", 1, 1),
        ("activeclansettings_getaffinedmuted", 1, 1),
        ("activeclansettings_getbanneddisplayname", 1, 1),
        ("activeclansettings_getaffinedjoinruneday", 1, 1),
        ("activeclansettings_getsortedaffinedslot", 1, 1),
        ("player_group_member_get_join_xp", 3, 1),
        ("player_group_member_get_same_world_var", 3, 1),
        ("activeclansettings_getaffinedextrainfo", 3, 1),
        ("activeclanchannel_getuserslot", 1, 1),
        ("activeclansettings_getaffinedslot", 1, 1),
        ("activeclanchannel_kickuser", 1, 0),
        ("affinedclansettings_addbanned_fromchannel", 1, 0),
        ("affinedclansettings_setmuted_fromchannel", 2, 0),
        ("login_inprogress", 0, 1),
        ("login_queue_position", 0, 1),
        ("login_disallowtrigger", 0, 1),
        ("create_reply", 0, 1),
        ("create_email_validate_reply", 0, 1),
        ("create_name_validate_reply", 0, 1),
        ("create_connect_reply", 0, 1),
        ("shop_requestdatastatus", 0, 1),
        ("shop_getcategorycount", 0, 1),
        ("autosetup_getlevel", 0, 1),
        ("create_under13", 0, 1),
        ("create_suggest_name_reply", 0, 2),
        ("create_get_email", 0, 1),
        ("sso_displayname", 0, 1),
        ("get_currentcursor", 0, 1),
        ("get_mousex", 0, 1),
        ("get_mousey", 0, 1),
        ("get_mousebuttons", 0, 3),
        ("get_active_minimenu_entry", 0, 4),
        ("get_second_minimenu_entry", 0, 4),
        ("get_minimenu_length", 0, 2)
    ];
    proof {
        assert(v@.map_values(|e: FixedRow| fixed_view(e)) =~= fixed_table_a());
    }
    v
}

fn fixed_entries_b() -> (r: Vec<FixedRow>)
    ensures
        r@.map_values(|e: FixedRow| fixed_view(e)) == fixed_table_b(),
{
    let v: Vec<FixedRow> = vec![
        ("get_minimenu_target", 0, 3),
        ("worldlist_start", 0, 8),
        ("worldlist_next", 0, 8),
        ("worldlist_fetch", 0, 1),
        ("worldlist_specific_thisworld", 0, 1),
        ("worldlist_specific", 1, 7),
        ("worldlist_switch", 2, 1),
        ("worldlist_sort", 4, 0),
        ("worldlist_autoworld", 0, 0),
        ("worldlist_pingworlds", 1, 0),
        ("pushCanvasSize", 0, 2),
        ("viewport_geteffectivesize", 0, 2),
        ("pushZeroInsets", 0, 4),
        ("pushFontMetrics", 1, 5),
        ("fullscreen_enter", 2, 1),
        ("fullscreen_modecount", 0, 1),
        ("window_getinsets", 0, 4),
        ("targetmode_active", 0, 1),
        ("if_get_gamescreen", 0, 1),
        ("interface_getpickingradius", 0, 1),
        ("if_hassub", 1, 1),
        ("if_getnextsubid", 1, 1),
        ("if_hassubmodal", 2, 1),
        ("if_hassuboverlay", 2, 1),
        ("setup_messagebox", 11, 0),
        ("formatminimenu", 12, 0),
        ("minimenuopen", 2, 1),
        ("setsubmenuminlength", 1, 0),
        ("if_set_gamescreen_enabled", 1, 0),
        ("interface_setpickingradius", 1, 0),
        ("if_opensubclient", 2, 0),
        ("if_closesubclient", 1, 0),
        ("opplayer", 2, 0),
        ("opplayert", 1, 0),
        ("defaultminimenu", 0, 0),
        ("minimenu_close", 0, 0),
        ("if_close", 0, 0),
        ("force_interface_drag", 0, 0),
        ("cancel_interface_drag", 0, 0),
        ("targetmode_cancel", 0, 0),
        ("login_accountappeal", 1, 1),
        ("shop_getindexforcategoryid", 1, 1),
        ("shop_getcategoryid", 1, 1),
        ("shop_getproductcount", 1, 1),
        ("shop_getcategorydescription", 1, 1),
        ("shop_isproductavailable", 1, 1),
        ("shop_isproductrecommended", 1, 1),
        ("shop_getindexforcategoryname", 1, 1),
        ("lobby_entergamereply", 0, 1),
        ("lobby_enterlobbyreply", 0, 1),
        ("shop_purchaseitemstatus", 0, 1),
        ("sso_available", 0, 1),
        ("shop_getproductdetails", 2, 9),
        ("notifications_sendlocal", 4, 1),
        ("notifications_sendgroupedlocal", 6, 1),
        ("login_request_social_network", 3, 0),
        ("lobby_entergame", 2, 0),
        ("lobby_enterlobby", 4, 0),
        ("lobby_enterlobby_sso", 2, 0),
        ("create_createrequest", 5, 0),
        ("db_listall", 1, 1),
        ("db_find", 2, 0),
        ("db_find_with_count", 2, 1),
        ("db_findnext", 0, 1),
        ("db_getfield", 3, 1),
        ("db_getfieldcount", 2, 1),
        ("db_find_refine", 2, 1),
        ("db_find_get", 1, 1),
        ("db_getrowtable", 1, 1),
        ("db_filter_find", 5, 1),
        ("db_filter_value", 4, 1),
        ("db_filter_unknown", 1, 1),
        ("db_filter_combine", 2, 1),
        ("db_filter_substring", 3, 1),
        ("db_filter_column", 3, 1),
        ("cam2_setlookatmode", 1, 0),
        ("cam2_setpositionmode", 1, 0),
        ("cam2_setpositionentity_npc", 7, 0),
        ("cam2_setpositionentity_player", 7, 0),
        ("error", 1, 0),
        ("create_availablerequest", 1, 0),
        ("create_name_availablerequest", 1, 0),
        ("create_step_reached", 1, 0),
        ("shop_open", 1, 0),
        ("notifications_cancellocal", 1, 0),
        ("shop_purchaseitem", 1, 0),
        ("marketing_sendevent", 1, 0),
        ("marketing_sendanalyticsevent", 1, 0),
        ("marketing_sendattributionevent", 1, 0),
        ("cam2_setdepthplanes", 2, 0),
        ("worldmap_3dview_setloddistance", 2, 0),
        ("highlight_reset_category_to_default", 1, 0),
        ("setminimapmask", 1, 0),
        ("highlight_set_localplayer_silhouette_mode", 1, 0),
        ("unknown_command_65", 1, 0),
        ("highlight_set_category_scale", 2, 0),
        ("unknown_command_7", 3, 0),
        ("unknown_command_62", 4, 1),
        ("field5283", 1, 1),
        ("field6317", 1, 0),
        ("get_entity_bounding_box", 0, 5),
        ("get_loc_bounding_box", 0, 5),
        ("get_obj_bounding_box", 0, 5),
        ("worldmap_3dview_getcoordfine", 3, 1),
        ("worldmap_coordinmap", 2, 1),
        ("create_suggest_name_request", 0, 0),
        ("create_connectrequest", 0, 0),
        ("login_resetreply", 0, 0),
        ("login_cancel", 0, 0),
        ("login_continue", 0, 0),
        ("shop_requestdata", 0, 0),
        ("shop_applypendingtransactions", 0, 0),
        ("marketing_init", 0, 0),
        ("notifications_init", 0, 0),
        ("notifications_opensettings", 0, 0),
        ("autosetup_setultra", 0, 0),
        ("autosetup_sethigh", 0, 0),
        ("autosetup_setmedium", 0, 0),
        ("autosetup_setlow", 0, 0),
        ("autosetup_setmin", 0, 0),
        ("autosetup_setcustom", 0, 0),
        ("autosetup_blackflaglast", 0, 0),
        ("fullscreen_exit", 0, 0),
        ("create_setunder13", 0, 0),
        ("cc_settext", 1, 0),
        ("cc_setgraphic", 1, 0),
        ("cc_sethide", 1, 0),
        ("cc_setcolour", 1, 0),
        ("cc_setfill", 1, 0),
        ("cc_settrans", 1, 0),
        ("cc_setlinewid", 1, 0),
        ("cc_setmodel", 1, 0),
        ("cc_set2dangle", 1, 0),
        ("cc_setlinedirection", 1, 0),
        ("cc_settiling", 1, 0),
        ("cc_setmodelanim", 1, 0),
        ("cc_setmodelorthog", 1, 0),
        ("cc_setmodelzoom", 1, 0),
        ("cc_settextfont", 1, 0),
        ("cc_settextshadow", 1, 0),
        ("cc_settextantimacro", 1, 0)
    ];
    proof {
        assert(v@.map_values(|e: FixedRow| fixed_view(e)) =~= fixed_table_b());
    }
    v
}

fn fixed_entries_c() -> (r: Vec<FixedRow>)
    ensures
        r@.map_values(|e: FixedRow| fixed_view(e)) == fixed_table_c(),
{
    let v: Vec<FixedRow> = vec![
        ("cc_setoutline", 1, 0),
        ("cc_setgraphicshadow", 1, 0),
        ("cc_setclickmask", 1, 0),
        ("cc_setheld", 1, 0),
        ("cc_setfontmono", 1, 0),
        ("cc_setnoclickthrough", 1, 0),
        ("cc_setstylesheet", 1, 0),
        ("cc_setscrollpos", 2, 0),
        ("cc_setscrollsize", 2, 0),
        ("cc_setaspect", 2, 0),
        ("cc_setmodelorigin", 2, 0),
        ("cc_setparam", 2, 0),
        ("cc_setparam_int", 2, 0),
        ("cc_setparam_string", 2, 0),
        ("cc_setobject", 2, 0),
        ("cc_setobject_nonum", 2, 0),
        ("cc_setobject_alwaysnum", 2, 0),
        ("cc_setobject_wearcol", 2, 0),
        ("cc_setobject_wearcol_nonum", 2, 0),
        ("cc_setobject_wearcol_alwaysnum", 2, 0),
        ("cc_setobject_long", 2, 0),
        ("cc_setobject_alwaysnum_long", 2, 0),
        ("cc_setobject_wearcol_long", 2, 0),
        ("cc_setobject_wearcol_alwaysnum_long", 2, 0),
        ("cc_setobject_highres", 1, 0),
        ("cc_settextalign", 3, 0),
        ("cc_setrecol", 3, 0),
        ("cc_setretex", 3, 0),
        ("cc_setposition", 4, 0),
        ("cc_setsize", 4, 0),
        ("cc_setmodeltint", 4, 0),
        ("cc_setmodelangle", 6, 0),
        ("cc_setmodellighting", 10, 0),
        ("cc_delete", 0, 0),
        ("cc_sendtofront", 0, 0),
        ("cc_sendtoback", 0, 0),
        ("cc_resetmodellighting", 0, 0),
        ("cc_clearops", 0, 0),
        ("cc_callonresize", 0, 0),
        ("cc_resume_pausebutton", 0, 0),
        ("cc_scriptqueue_clear", 0, 0),
        ("cc_deleteall", 1, 0),
        ("if_sendtofront", 1, 0),
        ("if_sendtoback", 1, 0),
        ("cc_find", 2, 1),
        ("cc_find_parent", 0, 1),
        ("cc_button_setcantoggle", 1, 0),
        ("cc_button_settoggled", 1, 0),
        ("cc_button_setlinkobjoptions", 2, 0),
        ("cc_scriptqueue_clear_script", 2, 0),
        ("cc_grid_setlayoutparams", 3, 0),
        ("cc_button_settextareasizeoffsets", 4, 0),
        ("if_find", 1, 1),
        ("if_gettext", 1, 1),
        ("if_settext", 2, 0),
        ("if_sethide", 2, 0),
        ("if_setcolour", 2, 0),
        ("if_setfill", 2, 0),
        ("if_settrans", 2, 0),
        ("if_setlinewid", 2, 0),
        ("if_setgraphic", 2, 0),
        ("if_setmodel", 2, 0),
        ("if_setmodelanim", 2, 0),
        ("if_setmodelorthog", 2, 0),
        ("if_setmodelzoom", 2, 0),
        ("if_settextfont", 2, 0),
        ("if_settextshadow", 2, 0),
        ("if_settextantimacro", 2, 0),
        ("if_setoutline", 2, 0),
        ("if_setgraphicshadow", 2, 0),
        ("if_setclickmask", 2, 0),
        ("if_setheld", 2, 0),
        ("if_setfontmono", 2, 0),
        ("if_setlinedirection", 2, 0),
        ("if_setnoclickthrough", 2, 0),
        ("if_setstylesheet", 2, 0),
        ("if_settiling", 2, 0),
        ("if_resetmodellighting", 2, 0),
        ("if_setonclick", 2, 0),
        ("if_setonvartransmit", 2, 0),
        ("if_setonstocktransmit", 2, 0),
        ("if_setoninvtransmit", 2, 0),
        ("if_setscrollpos", 3, 0),
        ("if_setscrollsize", 3, 0),
        ("if_setaspect", 3, 0),
        ("if_setmodelorigin", 3, 0),
        ("if_setparam_int", 3, 0),
        ("if_setparam_string", 3, 0),
        ("if_setobject", 3, 0),
        ("if_setobject_nonum", 3, 0),
        ("if_setobject_alwaysnum", 3, 0),
        ("if_setobject_wearcol", 3, 0),
        ("if_setobject_wearcol_nonum", 3, 0),
        ("if_setobject_wearcol_alwaysnum", 3, 0),
        ("if_setobject_long", 3, 0),
        ("if_setobject_alwaysnum_long", 3, 0),
        ("if_setobject_wearcol_long", 3, 0),
        ("if_setobject_wearcol_alwaysnum_long", 3, 0),
        ("if_setobject_highres", 2, 0),
        ("if_button_setcantoggle", 2, 0),
        ("if_button_settoggled", 2, 0),
        ("if_scriptqueue_clear_script", 2, 0),
        ("if_settextalign", 4, 0),
        ("if_setrecol", 4, 0),
        ("if_setretex", 4, 0),
        ("if_button_setlinkobjoptions", 3, 0),
        ("if_grid_setlayoutparams", 4, 0),
        ("if_setposition", 5, 0),
        ("if_setsize", 5, 0),
        ("if_setmodeltint", 5, 0),
        ("if_button_settextareasizeoffsets", 5, 0),
        ("if_setmodelangle", 7, 0),
        ("if_setmodellighting", 11, 0),
        ("if_resume_pausebutton", 1, 0),
        ("if_scriptqueue_clear", 1, 0),
        ("cc_create", 3, 0),
        ("baseidkit", 2, 0),
        ("basecolour", 2, 0),
        ("setobj", 2, 0),
        ("setgender", 1, 0),
        ("quickchat_dynamic_command_add", 2, 1),
        ("cc_param", 1, 1),
        ("oc_param", 2, 1),
        ("nc_param", 2, 1),
        ("lc_param", 2, 1),
        ("struct_param", 2, 1),
        ("seq_param", 2, 1),
        ("mec_param", 2, 1),
        ("quest_param", 2, 1),
        ("enum_string", 2, 1),
        ("enum_hasoutput", 3, 1),
        ("enum_getreversecount", 3, 1),
        ("enum_hasoutput_string", 2, 1),
        ("enum_getreversecount_string", 2, 1),
        ("enum", 4, 1),
        ("_enum", 4, 1),
        ("enum_getoutputcount", 1, 1),
        ("enum_getreverseindex", 5, 1),
        ("enum_getreverseindex_string", 4, 1),
        ("string_length", 1, 1)
    ];
    proof {
        assert(v@.map_values(|e: FixedRow| fixed_view(e)) =~= fixed_table_c());
    }
    v
}

/// The (pops, pushes) of commands with a fixed effect in every build.
fn fixed_entries() -> (r: Vec<FixedRow>)
    ensures
        r@.map_values(|e: FixedRow| fixed_view(e)) == fixed_table(),
{
    let mut v = fixed_entries_a();
    let mut b = fixed_entries_b();
    let mut c = fixed_entries_c();
    let ghost va = v@;
    let ghost vb = b@;
    let ghost vc = c@;
    v.append(&mut b);
    v.append(&mut c);
    proof {
        assert(v@ == va + vb + vc);
        assert(v@.map_values(|e: FixedRow| fixed_view(e)) =~= va.map_values(|e: FixedRow| fixed_view(e))
            + vb.map_values(|e: FixedRow| fixed_view(e)) + vc.map_values(|e: FixedRow| fixed_view(e)));
    }
    v
}

/// The fixed (pops, pushes) of `cmd`, if it has one.
pub fn fixed_stack_effect(cmd: &str) -> (r: Option<StackEffect>)
    ensures
        r == fixed_effect(fixed_table(), cmd@),
        r matches Some(e) ==> e.pops < 256 && e.pushes < 256,
{
    proof {
        lemma_fixed_effect_bounded(fixed_table(), cmd@);
    }
    let t = fixed_entries();
    let ghost tv = t@.map_values(|e: FixedRow| fixed_view(e));
    let mut i: usize = 0;
    proof {
        assert(tv.skip(0) =~= tv);
    }
    while i < t.len()
        invariant
            i <= t@.len(),
            tv == t@.map_values(|e: FixedRow| fixed_view(e)),
            tv == fixed_table(),
            fixed_effect(tv, cmd@) == fixed_effect(tv.skip(i as int), cmd@),
        decreases t.len() - i,
    {
        proof {
            assert(tv.skip(i as int).drop_first() =~= tv.skip(i + 1));
            assert(tv.skip(i as int)[0] == fixed_view(t@[i as int]));
        }
        if str_eq(t[i].0, cmd) {
            return Some(StackEffect { pops: t[i].1 as usize, pushes: t[i].2 as usize });
        }
        i = i + 1;
    }
    None
}

// ---------------------------------------------------------------------------
// Effect tables in text form
// ---------------------------------------------------------------------------

/// No pops and no pushes.
pub open spec fn no_effect() -> OpcodeStackEffect {
    OpcodeStackEffect { int_pops: 0, obj_pops: 0, long_pops: 0, int_pushes: 0, obj_pushes: 0, long_pushes: 0 }
}

/// `s` split at each `c` (`str::split`).
pub open spec fn split_at_char(s: Seq<char>, c: char) -> Seq<Seq<char>>
    decreases s.len(),
{
    let k = crate::text::index_of(s, c);
    if 0 <= k < s.len() {
        seq![s.take(k)] + split_at_char(s.skip(k + 1), c)
    } else {
        seq![s]
    }
}

/// `p` occurs in `s`.
pub open spec fn occurs(s: Seq<char>, p: Seq<char>) -> bool {
    exists|i: int| 0 <= i <= s.len() && p.is_prefix_of(#[trigger] s.skip(i))
}

/// The first `(...)` group of `v`: its contents and the position after its
/// closing bracket.
pub open spec fn first_group(v: Seq<char>) -> Option<(Seq<char>, int)> {
    let start = crate::text::index_of(v, '(');
    if start >= v.len() {
        None
    } else {
        let rest = v.skip(start + 1);
        let rel = crate::text::index_of(rest, ')');
        if rel >= rest.len() {
            None
        } else {
            Some((rest.take(rel), start + 1 + rel + 1))
        }
    }
}

/// The stack a signature field's type lands on: 1 for `string`, 2 for
/// `long`, 0 (the int stack) for any other type.
pub open spec fn sig_slot(field: Seq<char>) -> int {
    let t = crate::text::trim(field);
    let ws = crate::text::split_ws(t);
    let ty = if ws.len() > 0 {
        ws[0]
    } else {
        t
    };
    if ty == "string"@ {
        1
    } else if ty == "long"@ {
        2
    } else {
        0
    }
}

/// How many non-empty fields land on stack `slot`.
pub open spec fn sig_count(fields: Seq<Seq<char>>, slot: int) -> nat
    decreases fields.len(),
{
    if fields.len() == 0 {
        0
    } else {
        sig_count(fields.drop_last(), slot) + if crate::text::trim(fields.last()).len() > 0 && sig_slot(
            fields.last(),
        ) == slot {
            1nat
        } else {
            0nat
        }
    }
}

/// The effect of a signature: its argument types popped, its return types
/// pushed, each on its stack.
pub open spec fn signature_effect_of(args: Seq<char>, rets: Seq<char>) -> OpcodeStackEffect {
    let a = split_at_char(args, ',');
    let r = split_at_char(rets, ',');
    OpcodeStackEffect {
        int_pops: sig_count(a, 0) as usize,
        obj_pops: sig_count(a, 1) as usize,
        long_pops: sig_count(a, 2) as usize,
        int_pushes: sig_count(r, 0) as usize,
        obj_pushes: sig_count(r, 1) as usize,
        long_pushes: sig_count(r, 2) as usize,
    }
}

/// A `[command,name](args)(returns)` signature line: the command and the
/// effect of its signature; nothing for a line marked `todo signature` or
/// naming a hook, or not of that shape. A name with nothing after it has
/// no effect.
pub open spec fn signature_line(line: Seq<char>) -> Option<(Seq<char>, OpcodeStackEffect)> {
    let t = crate::text::trim(line);
    if occurs(t, "todo signature"@) || occurs(t, "hook "@) || occurs(t, "(hook"@) {
        None
    } else if !"[command,"@.is_prefix_of(t) {
        None
    } else {
        let body = t.skip("[command,"@.len() as int);
        let k = crate::text::index_of(body, ']');
        if k >= body.len() {
            None
        } else {
            let name = body.take(k);
            let rest = body.skip(k + 1);
            if rest.len() == 0 {
                Some((name, no_effect()))
            } else {
                match first_group(rest) {
                    None => None,
                    Some((args, end)) => {
                        let rets = match first_group(rest.skip(end)) {
                            Some((x, _)) => x,
                            None => seq![],
                        };
                        Some((name, signature_effect_of(args, rets)))
                    },
                }
            }
        }
    }
}

/// `s` split at each `c`.
pub(crate) fn split_chars(s: &[char], c: char) -> (r: Vec<Vec<char>>)
    ensures
        r.deep_view() == split_at_char(s@, c),
{
    let mut out: Vec<Vec<char>> = Vec::new();
    let mut pos: usize = 0;
    proof {
        assert(s@.skip(0) =~= s@);
    }
    loop
        invariant
            pos <= s@.len(),
            split_at_char(s@, c) == out.deep_view() + split_at_char(s@.skip(pos as int), c),
        decreases s@.len() - pos,
    {
        let k = crate::text::find_char_from(s, c, pos);
        let ghost rest = s@.skip(pos as int);
        proof {
            crate::text::lemma_index_of(rest, c);
        }
        if k < s.len() {
            let piece = crate::text::slice_vec(s, pos, k);
            let ghost before = out.deep_view();
            proof {
                assert(piece.deep_view() =~= piece@);
            }
            out.push(piece);
            proof {
                assert(piece@ =~= rest.take(k - pos));
                assert(rest.skip(k - pos + 1) =~= s@.skip(k + 1));
                assert(out.deep_view() =~= before.push(piece@));
                assert(split_at_char(rest, c) == seq![rest.take(k - pos)] + split_at_char(rest.skip(k - pos + 1), c));
                assert(before + (seq![piece@] + split_at_char(s@.skip(k + 1), c)) =~= out.deep_view() + split_at_char(
                    s@.skip(k + 1),
                    c,
                ));
            }
            pos = k + 1;
        } else {
            let piece = crate::text::slice_vec(s, pos, s.len());
            let ghost before = out.deep_view();
            proof {
                assert(piece.deep_view() =~= piece@);
            }
            out.push(piece);
            proof {
                assert(piece@ =~= rest);
                assert(out.deep_view() =~= before.push(piece@));
                assert(split_at_char(rest, c) == seq![rest]);
                assert(before + seq![rest] =~= out.deep_view());
            }
            return out;
        }
    }
}

/// The first `(...)` group of `v`.
fn first_parenthesized(v: &[char]) -> (r: Option<(Vec<char>, usize)>)
    ensures
        match r {
            Some((x, e)) => first_group(v@) == Some((x@, e as int)),
            None => first_group(v@) is None,
        },
{
    let start = crate::text::find_char_from(v, '(', 0);
    proof {
        assert(v@.skip(0) =~= v@);
    }
    if start >= v.len() {
        return None;
    }
    let end = crate::text::find_char_from(v, ')', start + 1);
    if end >= v.len() {
        return None;
    }
    let contents = crate::text::slice_vec(v, start + 1, end);
    proof {
        let rest = v@.skip(start + 1);
        assert(contents@ =~= rest.take(end - start - 1));
    }
    Some((contents, end + 1))
}

/// The number of non-empty fields of `types` on each stack (int, object,
/// long).
fn signature_counts(types: &[char]) -> (r: (usize, usize, usize))
    ensures
        r.0 == sig_count(split_at_char(types@, ','), 0),
        r.1 == sig_count(split_at_char(types@, ','), 1),
        r.2 == sig_count(split_at_char(types@, ','), 2),
{
    let fields = split_chars(types, ',');
    let ghost fv = fields.deep_view();
    let mut counts: (usize, usize, usize) = (0, 0, 0);
    let mut i: usize = 0;
    while i < fields.len()
        invariant
            i <= fields@.len(),
            fv == fields.deep_view(),
            fv == split_at_char(types@, ','),
            counts.0 == sig_count(fv.take(i as int), 0),
            counts.1 == sig_count(fv.take(i as int), 1),
            counts.2 == sig_count(fv.take(i as int), 2),
            counts.0 + counts.1 + counts.2 <= i,
        decreases fields@.len() - i,
    {
        proof {
            assert(fv.take(i + 1).drop_last() =~= fv.take(i as int));
            assert(fv.take(i + 1).last() == fields@[i as int]@);
        }
        let t = crate::text::trim_chars(&fields[i]);
        proof {
            assert(fv[i as int] == fields@[i as int]@);
        }
        if t.len() > 0 {
            let ws = crate::text::split_whitespace(&t);
            let ty = if ws.len() > 0 {
                proof {
                    assert(ws.deep_view()[0] == ws@[0]@);
                }
                ws[0].clone()
            } else {
                t.clone()
            };
            proof {
                assert(ty@ == (if crate::text::split_ws(t@).len() > 0 {
                    crate::text::split_ws(t@)[0]
                } else {
                    t@
                }));
            }
            if crate::text::chars_eq(&ty, "string") {
                counts.1 = counts.1 + 1;
            } else if crate::text::chars_eq(&ty, "long") {
                counts.2 = counts.2 + 1;
            } else {
                counts.0 = counts.0 + 1;
            }
        }
        i = i + 1;
    }
    proof {
        assert(fv.take(i as int) =~= fv);
    }
    counts
}

/// A `[command,name](args)(returns)` line: the command and its effect.
pub fn parse_command_signature_effect(line: &str) -> (r: Option<(String, OpcodeStackEffect)>)
    ensures
        match r {
            Some((n, e)) => signature_line(line@) == Some((n@, e)),
            None => signature_line(line@) is None,
        },
{
    let lc = chars_of(line);
    let t = crate::text::trim_chars(&lc);
    let ts = crate::text::string_of(&t);
    if crate::text::contains_sub_str(ts.as_str(), "todo signature") || crate::text::contains_sub_str(
        ts.as_str(),
        "hook ",
    ) || crate::text::contains_sub_str(ts.as_str(), "(hook") {
        return None;
    }
    let body = match crate::text::strip_prefix(&t, "[command,") {
        Some(b) => b,
        None => return None,
    };
    let (name, rest) = match crate::text::split_once(&body, ']') {
        Some(p) => p,
        None => return None,
    };
    if rest.len() == 0 {
        let e = OpcodeStackEffect {
            int_pops: 0,
            obj_pops: 0,
            long_pops: 0,
            int_pushes: 0,
            obj_pushes: 0,
            long_pushes: 0,
        };
        return Some((crate::text::string_of(&name), e));
    }
    let (args, end) = match first_parenthesized(&rest) {
        Some(p) => p,
        None => return None,
    };
    proof {
        crate::text::lemma_index_of(rest@, '(');
        crate::text::lemma_index_of(rest@.skip(crate::text::index_of(rest@, '(') + 1), ')');
    }
    let after = crate::text::slice_vec(&rest, end, rest.len());
    proof {
        assert(after@ =~= rest@.skip(end as int));
    }
    let rets = match first_parenthesized(&after) {
        Some((x, _)) => x,
        None => Vec::new(),
    };
    let (ip, op, lp) = signature_counts(&args);
    let (iu, ou, lu) = signature_counts(&rets);
    let e = OpcodeStackEffect {
        int_pops: ip,
        obj_pops: op,
        long_pops: lp,
        int_pushes: iu,
        obj_pushes: ou,
        long_pushes: lu,
    };
    Some((crate::text::string_of(&name), e))
}

/// The words of a stack-effects row that read as numbers, in order.
pub open spec fn row_counts(ws: Seq<Seq<char>>) -> Seq<int>
    decreases ws.len(),
{
    if ws.len() == 0 {
        seq![]
    } else {
        let rest = row_counts(ws.drop_last());
        match crate::text::parse_in_range(ws.last(), false, 0, usize::MAX as int) {
            Some(v) => rest.push(v),
            None => rest,
        }
    }
}

/// A stack-effects row `name int_pops obj_pops long_pops int_pushes
/// obj_pushes long_pushes`: blank lines, `#` comments and rows without
/// exactly six numbers give nothing.
pub open spec fn stack_effect_line(line: Seq<char>) -> Option<(Seq<char>, OpcodeStackEffect)> {
    let t = crate::text::trim(line);
    if t.len() == 0 || t[0] == '#' {
        None
    } else {
        let ws = crate::text::split_ws(t);
        if ws.len() == 0 {
            None
        } else {
            let c = row_counts(ws.drop_first());
            if c.len() != 6 {
                None
            } else {
                Some(
                    (
                        ws[0],
                        OpcodeStackEffect {
                            int_pops: c[0] as usize,
                            obj_pops: c[1] as usize,
                            long_pops: c[2] as usize,
                            int_pushes: c[3] as usize,
                            obj_pushes: c[4] as usize,
                            long_pushes: c[5] as usize,
                        },
                    ),
                )
            }
        }
    }
}

/// A stack-effects row: the command and its effect.
pub fn parse_stack_effect_line(line: &[char]) -> (r: Option<(Vec<char>, OpcodeStackEffect)>)
    ensures
        match r {
            Some((n, e)) => stack_effect_line(line@) == Some((n@, e)),
            None => stack_effect_line(line@) is None,
        },
{
    let t = crate::text::trim_chars(line);
    if t.len() == 0 || t[0] == '#' {
        return None;
    }
    let ws = crate::text::split_whitespace(&t);
    let ghost wv = ws.deep_view();
    if ws.len() == 0 {
        return None;
    }
    let mut counts: Vec<usize> = Vec::new();
    let mut i: usize = 1;
    proof {
        assert(wv.drop_first().take(0) =~= Seq::<Seq<char>>::empty());
    }
    while i < ws.len()
        invariant
            1 <= i <= ws@.len(),
            wv == ws.deep_view(),
            counts@.map_values(|v: usize| v as int) == row_counts(wv.drop_first().take(i - 1)),
        decreases ws@.len() - i,
    {
        proof {
            let d = wv.drop_first();
            assert(d.take(i as int).drop_last() =~= d.take(i - 1));
            assert(d.take(i as int).last() == ws@[i as int]@);
        }
        let ghost before = counts@;
        match crate::text::parse_usize(&ws[i]) {
            Some(v) => {
                counts.push(v);
                proof {
                    assert(counts@.map_values(|v: usize| v as int) =~= before.map_values(|v: usize| v as int).push(
                        v as int,
                    ));
                }
            },
            None => {},
        }
        i = i + 1;
    }
    proof {
        assert(wv.drop_first().take(i - 1) =~= wv.drop_first());
        assert(ws.deep_view()[0] == ws@[0]@);
    }
    if counts.len() != 6 {
        return None;
    }
    let e = OpcodeStackEffect {
        int_pops: counts[0],
        obj_pops: counts[1],
        long_pops: counts[2],
        int_pushes: counts[3],
        obj_pushes: counts[4],
        long_pushes: counts[5],
    };
    proof {
        let c = row_counts(wv.drop_first());
        assert(c[0] == counts@[0] as int);
        assert(c[5] == counts@[5] as int);
    }
    Some((ws[0].clone(), e))
}

/// The effect the last entry for `n` gives.
pub open spec fn last_named(es: Seq<Option<(Seq<char>, OpcodeStackEffect)>>, n: Seq<char>) -> Option<OpcodeStackEffect>
    decreases es.len(),
{
    if es.len() == 0 {
        None
    } else {
        match es.last() {
            Some((m, e)) => if m == n {
                Some(e)
            } else {
                last_named(es.drop_last(), n)
            },
            None => last_named(es.drop_last(), n),
        }
    }
}

/// The effect the first entry for `n` gives.
pub open spec fn first_named(es: Seq<Option<(Seq<char>, OpcodeStackEffect)>>, n: Seq<char>) -> Option<OpcodeStackEffect>
    decreases es.len(),
{
    if es.len() == 0 {
        None
    } else {
        match es[0] {
            Some((m, e)) => if m == n {
                Some(e)
            } else {
                first_named(es.drop_first(), n)
            },
            None => first_named(es.drop_first(), n),
        }
    }
}

/// The effect of `command` given the extracted stack-effects table and the
/// command signature lines: the hand-checked table first, then the last
/// row of the stack-effects table for it, then the first signature line
/// for it.
pub open spec fn effect_from_tables(c: Seq<char>, stack_effects: Seq<char>, signatures: Seq<String>) -> Option<
    OpcodeStackEffect,
> {
    match table_effect(manual_table(), c) {
        Some(e) => Some(e),
        None => match last_named(crate::text::lines_spec(stack_effects).map_values(|l: Seq<char>| stack_effect_line(l)), c) {
            Some(e) => Some(e),
            None => first_named(signatures.map_values(|l: String| signature_line(l@)), c),
        },
    }
}

/// The per-stack effect of `command` from the hand-checked table, the
/// extracted stack-effects table text and the command signature lines.
pub fn opcode_stack_effect_from_tables(command: &str, stack_effects: &str, signatures: &Vec<String>) -> (r: Option<
    OpcodeStackEffect,
>)
    ensures
        r == effect_from_tables(command@, stack_effects@, signatures@),
{
    if let Some(e) = manual_opcode_stack_effect(command) {
        return Some(e);
    }
    let cc = chars_of(command);
    let sc = chars_of(stack_effects);
    let ls = crate::text::lines(&sc);
    let ghost all = crate::text::lines_spec(stack_effects@);
    let ghost es = all.map_values(|l: Seq<char>| stack_effect_line(l));
    let mut i = ls.len();
    proof {
        assert(es.take(i as int) =~= es);
    }
    while i > 0
        invariant
            i <= ls@.len(),
            ls.deep_view() == all,
            all == crate::text::lines_spec(stack_effects@),
            es == all.map_values(|l: Seq<char>| stack_effect_line(l)),
            cc@ == command@,
            table_effect(manual_table(), command@) is None,
            last_named(es, command@) == last_named(es.take(i as int), command@),
        decreases i,
    {
        i = i - 1;
        proof {
            assert(ls.deep_view()[i as int] == ls@[i as int]@);
            assert(es.take(i + 1).drop_last() =~= es.take(i as int));
            assert(es.take(i + 1).last() == es[i as int]);
            assert(es[i as int] == stack_effect_line(ls@[i as int]@));
        }
        if let Some((n, e)) = parse_stack_effect_line(&ls[i]) {
            if crate::text::chars_eq(&n, command) {
                proof {
                    assert(es.take(i + 1).last() == Some((command@, e)));
                    assert(last_named(es.take(i + 1), command@) == Some(e));
                }
                return Some(e);
            }
        }
    }
    proof {
        assert(es.take(0).len() == 0);
    }
    let ghost ss = signatures@.map_values(|l: String| signature_line(l@));
    let mut k: usize = 0;
    proof {
        assert(ss.skip(0) =~= ss);
    }
    while k < signatures.len()
        invariant
            k <= signatures@.len(),
            ss == signatures@.map_values(|l: String| signature_line(l@)),
            table_effect(manual_table(), command@) is None,
            es == crate::text::lines_spec(stack_effects@).map_values(|l: Seq<char>| stack_effect_line(l)),
            last_named(es, command@) is None,
            first_named(ss, command@) == first_named(ss.skip(k as int), command@),
        decreases signatures@.len() - k,
    {
        proof {
            assert(ss.skip(k as int).drop_first() =~= ss.skip(k + 1));
            assert(ss.skip(k as int)[0] == signature_line(signatures@[k as int]@));
        }
        if let Some((n, e)) = parse_command_signature_effect(signatures[k].as_str()) {
            if str_eq(n.as_str(), command) {
                proof {
                    assert(ss.skip(k as int)[0] == Some((command@, e)));
                    assert(first_named(ss.skip(k as int), command@) == Some(e));
                }
                return Some(e);
            }
        }
        k = k + 1;
    }
    proof {
        assert(ss.skip(k as int).len() == 0);
    }
    None
}

/// Every count of an effect is below 65536.
pub open spec fn effect_fits(e: OpcodeStackEffect) -> bool {
    e.int_pops < 65536 && e.obj_pops < 65536 && e.long_pops < 65536 && e.int_pushes < 65536 && e.obj_pushes
        < 65536 && e.long_pushes < 65536
}

/// Every row of the stack-effects text and every signature line that gives
/// an effect gives one whose counts are below 65536.
pub open spec fn rows_fit(stack_effects: Seq<char>, signatures: Seq<String>) -> bool {
    &&& forall|i: int|
        0 <= i < crate::text::lines_spec(stack_effects).len() ==> (#[trigger] stack_effect_line(
            crate::text::lines_spec(stack_effects)[i],
        ) matches Some((_n, e)) ==> effect_fits(e))
    &&& forall|i: int|
        0 <= i < signatures.len() ==> (#[trigger] signature_line(signatures[i]@) matches Some((_n, e))
            ==> effect_fits(e))
}

proof fn lemma_last_named_fits(es: Seq<Option<(Seq<char>, OpcodeStackEffect)>>, n: Seq<char>)
    requires
        forall|i: int| 0 <= i < es.len() ==> (#[trigger] es[i] matches Some((_m, e)) ==> effect_fits(e)),
    ensures
        last_named(es, n) matches Some(e) ==> effect_fits(e),
    decreases es.len(),
{
    if es.len() > 0 {
        assert(es.last() == es[es.len() - 1]);
        let d = es.drop_last();
        assert forall|i: int| 0 <= i < d.len() implies (#[trigger] d[i] matches Some((_m, e)) ==> effect_fits(e)) by {
            assert(d[i] == es[i]);
        }
        lemma_last_named_fits(d, n);
    }
}

proof fn lemma_first_named_fits(es: Seq<Option<(Seq<char>, OpcodeStackEffect)>>, n: Seq<char>)
    requires
        forall|i: int| 0 <= i < es.len() ==> (#[trigger] es[i] matches Some((_m, e)) ==> effect_fits(e)),
    ensures
        first_named(es, n) matches Some(e) ==> effect_fits(e),
    decreases es.len(),
{
    if es.len() > 0 {
        let d = es.drop_first();
        assert forall|i: int| 0 <= i < d.len() implies (#[trigger] d[i] matches Some((_m, e)) ==> effect_fits(e)) by {
            assert(d[i] == es[i + 1]);
        }
        lemma_first_named_fits(d, n);
    }
}

proof fn lemma_tables_fit(c: Seq<char>, stack_effects: Seq<char>, signatures: Seq<String>)
    requires
        rows_fit(stack_effects, signatures),
    ensures
        effect_from_tables(c, stack_effects, signatures) matches Some(e) ==> effect_fits(e),
{
    lemma_table_effect_bounded(manual_table(), c);
    let ls = crate::text::lines_spec(stack_effects);
    let es = ls.map_values(|l: Seq<char>| stack_effect_line(l));
    assert forall|i: int| 0 <= i < es.len() implies (#[trigger] es[i] matches Some((_m, e)) ==> effect_fits(e)) by {
        assert(es[i] == stack_effect_line(ls[i]));
    }
    lemma_last_named_fits(es, c);
    let ss = signatures.map_values(|l: String| signature_line(l@));
    assert forall|i: int| 0 <= i < ss.len() implies (#[trigger] ss[i] matches Some((_m, e)) ==> effect_fits(e)) by {
        assert(ss[i] == signature_line(signatures[i]@));
    }
    lemma_first_named_fits(ss, c);
}

/// The extracted tables that stack effects are read from besides the
/// hand-checked one: the stack-effects table text (rows `name int_pops
/// obj_pops long_pops int_pushes obj_pushes long_pushes`) and the command
/// signature lines.
pub struct EffectTables {
    stack_effects: String,
    signatures: Vec<String>,
}

impl EffectTables {
    #[verifier::type_invariant]
    spec fn inv(self) -> bool {
        rows_fit(self.stack_effects@, self.signatures@)
    }

    /// The stack-effects table text.
    pub closed spec fn stack_effects_view(&self) -> Seq<char> {
        self.stack_effects@
    }

    /// The command signature lines.
    pub closed spec fn signatures_view(&self) -> Seq<String> {
        self.signatures@
    }

    /// No extracted tables: only the hand-checked table applies.
    pub fn new() -> (r: Self)
        ensures
            r.stack_effects_view() == Seq::<char>::empty(),
            r.signatures_view() == Seq::<String>::empty(),
    {
        let t = EffectTables { stack_effects: String::new(), signatures: Vec::new() };
        proof {
            assert(crate::text::lines_spec(t.stack_effects@).len() == 0);
        }
        t
    }

    /// The tables read from a stack-effects text and signature lines;
    /// `None` when a row gives a count of 65536 or more.
    pub fn from_text(stack_effects: String, signatures: Vec<String>) -> (r: Option<Self>)
        ensures
            r is Some <==> rows_fit(stack_effects@, signatures@),
            r matches Some(t) ==> t.stack_effects_view() == stack_effects@ && t.signatures_view()
                == signatures@,
    {
        let sc = chars_of(stack_effects.as_str());
        let ls = crate::text::lines(&sc);
        let ghost all = crate::text::lines_spec(stack_effects@);
        let mut i: usize = 0;
        while i < ls.len()
            invariant
                i <= ls@.len(),
                ls.deep_view() == all,
                all == crate::text::lines_spec(stack_effects@),
                forall|k: int|
                    0 <= k < i ==> (#[trigger] stack_effect_line(all[k]) matches Some((_n, e)) ==> effect_fits(e)),
            decreases ls@.len() - i,
        {
            proof {
                assert(ls.deep_view()[i as int] == ls@[i as int]@);
            }
            if let Some((_n, e)) = parse_stack_effect_line(&ls[i]) {
                if !(e.int_pops < 65536 && e.obj_pops < 65536 && e.long_pops < 65536 && e.int_pushes < 65536
                    && e.obj_pushes < 65536 && e.long_pushes < 65536) {
                    proof {
                        assert(!rows_fit(stack_effects@, signatures@)) by {
                            assert(stack_effect_line(all[i as int]) == Some((_n@, e)));
                        }
                    }
                    return None;
                }
            }
            i = i + 1;
        }
        let mut k: usize = 0;
        while k < signatures.len()
            invariant
                k <= signatures@.len(),
                forall|j: int|
                    0 <= j < all.len() ==> (#[trigger] stack_effect_line(all[j]) matches Some((_n, e)) ==> effect_fits(e)),
                all == crate::text::lines_spec(stack_effects@),
                forall|j: int|
                    0 <= j < k ==> (#[trigger] signature_line(signatures@[j]@) matches Some((_n, e)) ==> effect_fits(e)),
            decreases signatures@.len() - k,
        {
            if let Some((_n, e)) = parse_command_signature_effect(signatures[k].as_str()) {
                if !(e.int_pops < 65536 && e.obj_pops < 65536 && e.long_pops < 65536 && e.int_pushes < 65536
                    && e.obj_pushes < 65536 && e.long_pushes < 65536) {
                    proof {
                        assert(!rows_fit(stack_effects@, signatures@)) by {
                            assert(signature_line(signatures@[k as int]@) == Some((_n@, e)));
                        }
                    }
                    return None;
                }
            }
            k = k + 1;
        }
        Some(EffectTables { stack_effects, signatures })
    }
}

} // verus!
