use vstd::prelude::*;

verus! {

/// The texts of the debugger's command prompt.
pub struct CustomPrompt {}

impl CustomPrompt {
    pub fn new() -> (r: CustomPrompt) {
        CustomPrompt {  }
    }

    /// Shown left of the input: nothing.
    pub fn left(&self) -> (r: &'static str)
        ensures
            r@ == Seq::<char>::empty(),
    {
        proof {
            reveal_strlit("");
        }
        ""
    }

    /// Shown right of the input: nothing.
    pub fn right(&self) -> (r: &'static str)
        ensures
            r@ == Seq::<char>::empty(),
    {
        proof {
            reveal_strlit("");
        }
        ""
    }

    /// The prompt marker.
    pub fn indicator(&self) -> (r: &'static str)
        ensures
            r@ == seq!['>'],
    {
        proof {
            reveal_strlit(">");
        }
        ">"
    }

    /// The marker of a continued line.
    pub fn multiline_indicator(&self) -> (r: &'static str)
        ensures
            r@ == seq!['>', '>'],
    {
        proof {
            reveal_strlit(">>");
        }
        ">>"
    }

    /// The marker of a history search.
    pub fn history_search_indicator(&self) -> (r: &'static str)
        ensures
            r@ == seq!['S', 'e', 'a', 'r', 'c', 'h', '>'],
    {
        proof {
            reveal_strlit("Search>");
        }
        "Search>"
    }
}

} // verus!
