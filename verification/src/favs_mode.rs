//! The controller's modes and the help text attached to each.
use vstd::prelude::*;

verus! {

/// What the controller is currently interpreting keystrokes as: one of the
/// two navigation columns, the filter overlay, the quick-number overlay, or
/// the help screen.
#[derive(Clone, Copy, Debug, PartialEq, Eq, Structural)]
pub enum FavMode {
    NavigateFavs,
    NavigateFlush,
    Filter,
    AssignNumber,
    Help,
}

impl Default for FavMode {
    fn default() -> (r: Self)
        ensures
            r == FavMode::NavigateFavs,
    {
        FavMode::NavigateFavs
    }
}

/// The help-screen table for a mode: each key chord with its description.
pub open spec fn commands_spec(mode: FavMode) -> Seq<(Seq<char>, Seq<char>)> {
    match mode {
        FavMode::Filter => seq![
            ("<Enter> | <Tab>"@, "Use filter"@),
            ("<Esc>"@, "Close filter"@),
            ("<Backspace>"@, "Delete last character"@),
            ("<Left>"@, "Go to Favs"@),
            ("<Right>"@, "Go to Flush"@),
            ("<Char>"@, "Type character to filter"@),
        ],
        FavMode::NavigateFavs | FavMode::NavigateFlush => seq![
            ("<Enter>"@, "Open session"@),
            ("<Space>"@, "Move session to Flush/Favorites"@),
            ("<Tab>"@, "Navigate Flush/Favorites items"@),
            ("\u{2191}k | \u{2193}j"@, "Move cursor"@),
            ("/"@, "Filter"@),
            ("?"@, "Help"@),
            ("<Esc> | 'q'"@, "Close"@),
        ],
        FavMode::AssignNumber => seq![
            ("0-9"@, "Assign quick-access number"@),
            ("<Esc>"@, "Cancel"@),
        ],
        FavMode::Help => seq![
            ("<Esc> | 'q'"@, "Close help"@),
            ("\u{2191}k | \u{2193}j"@, "Move cursor"@),
        ],
    }
}

/// How many key/description pairs the help screen lists for a mode.
pub open spec fn commands_len(mode: FavMode) -> nat {
    match mode {
        FavMode::Filter => 6,
        FavMode::NavigateFavs => 7,
        FavMode::NavigateFlush => 7,
        FavMode::AssignNumber => 2,
        FavMode::Help => 2,
    }
}

/// The combined help-entry count over the modes that the help screen shows.
pub open spec fn total_of(modes: Seq<FavMode>) -> nat
    decreases modes.len(),
{
    if modes.len() == 0 {
        0
    } else {
        total_of(modes.drop_last()) + commands_len(modes.last())
    }
}

impl FavMode {
    /// The key/description pairs shown on the help screen for this mode.
    pub fn get_commands(self) -> (r: Vec<(&'static str, &'static str)>)
        ensures
            r@.len() == commands_len(self),
            r@.map_values(|p: (&'static str, &'static str)| (p.0@, p.1@)) == commands_spec(self),
    {
        let r: Vec<(&'static str, &'static str)> = match self {
            FavMode::Filter => {
                vec![
                    ("<Enter> | <Tab>", "Use filter"),
                    ("<Esc>", "Close filter"),
                    ("<Backspace>", "Delete last character"),
                    ("<Left>", "Go to Favs"),
                    ("<Right>", "Go to Flush"),
                    ("<Char>", "Type character to filter"),
                ]
            },
            FavMode::NavigateFavs | FavMode::NavigateFlush => {
                vec![
                    ("<Enter>", "Open session"),
                    ("<Space>", "Move session to Flush/Favorites"),
                    ("<Tab>", "Navigate Flush/Favorites items"),
                    ("\u{2191}k | \u{2193}j", "Move cursor"),
                    ("/", "Filter"),
                    ("?", "Help"),
                    ("<Esc> | 'q'", "Close"),
                ]
            },
            FavMode::AssignNumber => {
                vec![("0-9", "Assign quick-access number"), ("<Esc>", "Cancel")]
            },
            FavMode::Help => {
                vec![("<Esc> | 'q'", "Close help"), ("\u{2191}k | \u{2193}j", "Move cursor")]
            },
        };
        proof {
            assert(r@.map_values(|p: (&'static str, &'static str)| (p.0@, p.1@)) =~= commands_spec(
                self,
            ));
        }
        r
    }

    /// The modes the help screen iterates over, in display order.
    pub fn variants() -> (r: Vec<FavMode>)
        ensures
            r@ == seq![
                FavMode::NavigateFavs,
                FavMode::NavigateFlush,
                FavMode::Filter,
                FavMode::Help,
            ],
    {
        let r = vec![FavMode::NavigateFavs, FavMode::NavigateFlush, FavMode::Filter, FavMode::Help];
        proof {
            assert(r@ =~= seq![
                FavMode::NavigateFavs,
                FavMode::NavigateFlush,
                FavMode::Filter,
                FavMode::Help,
            ]);
        }
        r
    }

    /// The number of help entries over all displayed modes.
    pub fn total_commands() -> (r: usize)
        ensures
            r == 22,
    {
        let modes = FavMode::variants();
        let mut total: usize = 0;
        let mut i: usize = 0;
        while i < modes.len()
            invariant
                i <= modes.len(),
                modes@ == seq![
                    FavMode::NavigateFavs,
                    FavMode::NavigateFlush,
                    FavMode::Filter,
                    FavMode::Help,
                ],
                total == total_of(modes@.take(i as int)),
                total <= 7 * i,
            decreases modes.len() - i,
        {
            let commands = modes[i].get_commands();
            proof {
                assert(modes@.take(i + 1).drop_last() =~= modes@.take(i as int));
                assert(modes@.take(i + 1).last() == modes@[i as int]);
            }
            total = total + commands.len();
            i = i + 1;
        }
        proof {
            let s = modes@;
            let s3 = seq![FavMode::NavigateFavs, FavMode::NavigateFlush, FavMode::Filter];
            let s2 = seq![FavMode::NavigateFavs, FavMode::NavigateFlush];
            let s1 = seq![FavMode::NavigateFavs];
            let s0 = Seq::<FavMode>::empty();
            assert(s.take(4) =~= s);
            assert(total_of(s0) == 0);
            assert(s1.drop_last() =~= s0);
            assert(s1.last() == FavMode::NavigateFavs);
            assert(total_of(s1) == 7);
            assert(s2.drop_last() =~= s1);
            assert(total_of(s2) == 14);
            assert(s3.drop_last() =~= s2);
            assert(total_of(s3) == 20);
            assert(s.drop_last() =~= s3);
            assert(total_of(s) == 22);
        }
        total
    }

    /// The heading under which the help screen groups this mode.
    pub fn label(&self) -> (r: &'static str)
        ensures
            (self is NavigateFavs || self is NavigateFlush || self is AssignNumber) ==> r@
                == "Navigate"@,
            self is Filter ==> r@ == "Filter"@,
            self is Help ==> r@ == "Help"@,
    {
        match self {
            FavMode::NavigateFavs | FavMode::NavigateFlush | FavMode::AssignNumber => "Navigate",
            FavMode::Filter => "Filter",
            FavMode::Help => "Help",
        }
    }
}

} // verus!
