use vstd::prelude::*;
use vstd::string::StringExecFns;

pub mod assign_number;
pub mod favs;
pub mod favs_mode;
pub mod filter;
pub mod help;
pub mod host;
pub mod laws;
pub mod navigate;
pub mod reconcile;
pub mod sessions;
pub mod text_match;
pub mod worker;

verus! {

/// One external session tracked by the triage tool.
#[derive(Clone, Debug)]
pub struct FavSessionInfo {
    pub name: String,
    pub is_active: bool,
    pub assigned_number: Option<u8>,
    pub tabs: usize,
    pub panes: usize,
}

/// Mathematical image of a tracked session: the name as a character
/// sequence, everything else as the plain value it already is.
pub struct SessionView {
    pub name: Seq<char>,
    pub is_active: bool,
    pub assigned_number: Option<u8>,
    pub tabs: usize,
    pub panes: usize,
}

impl View for FavSessionInfo {
    type V = SessionView;

    open spec fn view(&self) -> SessionView {
        SessionView {
            name: self.name@,
            is_active: self.is_active,
            assigned_number: self.assigned_number,
            tabs: self.tabs,
            panes: self.panes,
        }
    }
}

impl DeepView for FavSessionInfo {
    type V = SessionView;

    open spec fn deep_view(&self) -> SessionView {
        self.view()
    }
}

impl PartialEq for FavSessionInfo {
    fn eq(&self, other: &Self) -> (r: bool) {
        crate::sessions::session_fields_equal(self, other)
    }
}

impl vstd::std_specs::cmp::PartialEqSpecImpl for FavSessionInfo {
    open spec fn obeys_eq_spec() -> bool {
        true
    }

    open spec fn eq_spec(&self, other: &Self) -> bool {
        self@ == other@
    }
}

/// The kind of external command a host request was issued for, used to
/// route the host's command-result event back to its origin.
#[derive(Clone, Copy, Debug, PartialEq, Eq, Structural)]
pub enum FavsCommandType {
    ReadCache,
    WriteCache,
}

impl FavsCommandType {
    /// The context key under which the command kind travels with a request.
    pub fn get_command_key() -> (r: String)
        ensures
            r@ == "command_type"@,
    {
        String::from_str("command_type")
    }

    /// The stable text form of this command kind.
    pub fn as_str(&self) -> (r: &'static str)
        ensures
            self is ReadCache ==> r@ == "ReadCache"@,
            self is WriteCache ==> r@ == "WriteCache"@,
    {
        match self {
            FavsCommandType::ReadCache => "ReadCache",
            FavsCommandType::WriteCache => "WriteCache",
        }
    }
}

impl From<&String> for FavsCommandType {
    fn from(value: &String) -> (r: Self) {
        proof {
            reveal_strlit("ReadCache");
            reveal_strlit("WriteCache");
        }
        if *value == String::from_str("WriteCache") {
            FavsCommandType::WriteCache
        } else {
            FavsCommandType::ReadCache
        }
    }
}

impl vstd::std_specs::convert::FromSpecImpl<&String> for FavsCommandType {
    open spec fn obeys_from_spec() -> bool {
        true
    }

    open spec fn from_spec(value: &String) -> Self {
        if value@ == "WriteCache"@ {
            FavsCommandType::WriteCache
        } else {
            FavsCommandType::ReadCache
        }
    }
}

} // verus!
