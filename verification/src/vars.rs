//! Variable domains of the script VM.
use crate::error::{Error, ErrorKind};
use crate::text::chars_eq;
use vstd::prelude::*;

verus! {

/// The scope a game variable lives in. Its numeric id is its position in
/// this list (player = 0 .. global = 10).
#[derive(Clone, Copy, Debug, PartialEq, Eq, Structural, Hash)]
pub enum VarDomain {
    Player,
    Npc,
    Client,
    World,
    Region,
    Object,
    Clan,
    ClanSetting,
    Controller,
    PlayerGroup,
    Global,
}

/// The numeric id of a domain in the bytecode.
pub open spec fn domain_id(d: VarDomain) -> u8 {
    match d {
        VarDomain::Player => 0,
        VarDomain::Npc => 1,
        VarDomain::Client => 2,
        VarDomain::World => 3,
        VarDomain::Region => 4,
        VarDomain::Object => 5,
        VarDomain::Clan => 6,
        VarDomain::ClanSetting => 7,
        VarDomain::Controller => 8,
        VarDomain::PlayerGroup => 9,
        VarDomain::Global => 10,
    }
}

/// The domain with numeric id `id`, if any.
pub open spec fn domain_from_id(id: u8) -> Option<VarDomain> {
    if id == 0 {
        Some(VarDomain::Player)
    } else if id == 1 {
        Some(VarDomain::Npc)
    } else if id == 2 {
        Some(VarDomain::Client)
    } else if id == 3 {
        Some(VarDomain::World)
    } else if id == 4 {
        Some(VarDomain::Region)
    } else if id == 5 {
        Some(VarDomain::Object)
    } else if id == 6 {
        Some(VarDomain::Clan)
    } else if id == 7 {
        Some(VarDomain::ClanSetting)
    } else if id == 8 {
        Some(VarDomain::Controller)
    } else if id == 9 {
        Some(VarDomain::PlayerGroup)
    } else if id == 10 {
        Some(VarDomain::Global)
    } else {
        None
    }
}

/// The text label of a domain.
pub open spec fn domain_label(d: VarDomain) -> Seq<char> {
    match d {
        VarDomain::Player => "player"@,
        VarDomain::Npc => "npc"@,
        VarDomain::Client => "client"@,
        VarDomain::World => "world"@,
        VarDomain::Region => "region"@,
        VarDomain::Object => "object"@,
        VarDomain::Clan => "clan"@,
        VarDomain::ClanSetting => "clan_setting"@,
        VarDomain::Controller => "controller"@,
        VarDomain::PlayerGroup => "player_group"@,
        VarDomain::Global => "global"@,
    }
}

/// The domain whose label is `s`, if any.
pub open spec fn domain_from_label(s: Seq<char>) -> Option<VarDomain> {
    if s == "player"@ {
        Some(VarDomain::Player)
    } else if s == "npc"@ {
        Some(VarDomain::Npc)
    } else if s == "client"@ {
        Some(VarDomain::Client)
    } else if s == "world"@ {
        Some(VarDomain::World)
    } else if s == "region"@ {
        Some(VarDomain::Region)
    } else if s == "object"@ {
        Some(VarDomain::Object)
    } else if s == "clan"@ {
        Some(VarDomain::Clan)
    } else if s == "clan_setting"@ {
        Some(VarDomain::ClanSetting)
    } else if s == "controller"@ {
        Some(VarDomain::Controller)
    } else if s == "player_group"@ {
        Some(VarDomain::PlayerGroup)
    } else if s == "global"@ {
        Some(VarDomain::Global)
    } else {
        None
    }
}

impl VarDomain {
    /// The numeric id of this domain.
    pub fn id(self) -> (r: u8)
        ensures
            r == domain_id(self),
    {
        match self {
            VarDomain::Player => 0,
            VarDomain::Npc => 1,
            VarDomain::Client => 2,
            VarDomain::World => 3,
            VarDomain::Region => 4,
            VarDomain::Object => 5,
            VarDomain::Clan => 6,
            VarDomain::ClanSetting => 7,
            VarDomain::Controller => 8,
            VarDomain::PlayerGroup => 9,
            VarDomain::Global => 10,
        }
    }

    /// The domain with numeric id `id`; an `Invalid` error for an unknown id.
    pub fn from_id(id: u8) -> (r: Result<VarDomain, Error>)
        ensures
            r matches Ok(d) ==> domain_from_id(id) == Some(d),
            r is Err <==> domain_from_id(id) is None,
            r matches Err(e) ==> e.kind == ErrorKind::Invalid,
    {
        if id == 0 {
            Ok(VarDomain::Player)
        } else if id == 1 {
            Ok(VarDomain::Npc)
        } else if id == 2 {
            Ok(VarDomain::Client)
        } else if id == 3 {
            Ok(VarDomain::World)
        } else if id == 4 {
            Ok(VarDomain::Region)
        } else if id == 5 {
            Ok(VarDomain::Object)
        } else if id == 6 {
            Ok(VarDomain::Clan)
        } else if id == 7 {
            Ok(VarDomain::ClanSetting)
        } else if id == 8 {
            Ok(VarDomain::Controller)
        } else if id == 9 {
            Ok(VarDomain::PlayerGroup)
        } else if id == 10 {
            Ok(VarDomain::Global)
        } else {
            Err(Error::new(ErrorKind::Invalid, "unknown var domain id"))
        }
    }

    /// The text label of this domain.
    pub fn as_label(self) -> (r: &'static str)
        ensures
            r@ == domain_label(self),
    {
        match self {
            VarDomain::Player => "player",
            VarDomain::Npc => "npc",
            VarDomain::Client => "client",
            VarDomain::World => "world",
            VarDomain::Region => "region",
            VarDomain::Object => "object",
            VarDomain::Clan => "clan",
            VarDomain::ClanSetting => "clan_setting",
            VarDomain::Controller => "controller",
            VarDomain::PlayerGroup => "player_group",
            VarDomain::Global => "global",
        }
    }

    /// The domain labelled `s`, if any.
    pub fn from_label(s: &[char]) -> (r: Option<VarDomain>)
        ensures
            r == domain_from_label(s@),
    {
        if chars_eq(s, "player") {
            Some(VarDomain::Player)
        } else if chars_eq(s, "npc") {
            Some(VarDomain::Npc)
        } else if chars_eq(s, "client") {
            Some(VarDomain::Client)
        } else if chars_eq(s, "world") {
            Some(VarDomain::World)
        } else if chars_eq(s, "region") {
            Some(VarDomain::Region)
        } else if chars_eq(s, "object") {
            Some(VarDomain::Object)
        } else if chars_eq(s, "clan") {
            Some(VarDomain::Clan)
        } else if chars_eq(s, "clan_setting") {
            Some(VarDomain::ClanSetting)
        } else if chars_eq(s, "controller") {
            Some(VarDomain::Controller)
        } else if chars_eq(s, "player_group") {
            Some(VarDomain::PlayerGroup)
        } else if chars_eq(s, "global") {
            Some(VarDomain::Global)
        } else {
            None
        }
    }
}

/// A domain's id names it back.
pub proof fn lemma_domain_id_roundtrip(d: VarDomain)
    ensures
        domain_from_id(domain_id(d)) == Some(d),
{
}

/// A domain's label names it back.
pub proof fn lemma_domain_label_roundtrip(d: VarDomain)
    ensures
        domain_from_label(domain_label(d)) == Some(d),
{
    reveal_strlit("player");
    reveal_strlit("npc");
    reveal_strlit("client");
    reveal_strlit("world");
    reveal_strlit("region");
    reveal_strlit("object");
    reveal_strlit("clan");
    reveal_strlit("clan_setting");
    reveal_strlit("controller");
    reveal_strlit("player_group");
    reveal_strlit("global");
    let s = domain_label(d);
    assert(s.len() > 0);
    match d {
        VarDomain::Client => assert(s[0] != "player"@[0]),
        VarDomain::Region => {
            assert(s[0] != "player"@[0]);
            assert(s[0] != "client"@[0]);
        },
        VarDomain::Object => {
            assert(s[0] != "player"@[0]);
            assert(s[0] != "client"@[0]);
            assert(s[0] != "region"@[0]);
        },
        VarDomain::PlayerGroup => assert(s[0] != "clan_setting"@[0]),
        VarDomain::Global => {
            assert(s[0] != "player"@[0]);
            assert(s[0] != "client"@[0]);
            assert(s[0] != "region"@[0]);
            assert(s[0] != "object"@[0]);
        },
        _ => {},
    }
}

} // verus!
