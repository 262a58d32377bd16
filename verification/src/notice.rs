//! Whether notices are printed. Errors are not notices: nothing hides them.

use vstd::prelude::*;

verus! {

/// The choice whether to be quiet, as far as one was made.
pub struct Notices {
    quiet: Option<bool>,
}

impl Notices {
    /// The choice that was made, if any.
    pub closed spec fn choice(&self) -> Option<bool> {
        self.quiet
    }

    pub fn new() -> (r: Self)
        ensures
            r.choice() is None,
    {
        Notices { quiet: None }
    }

    /// Records the choice. The first one stands.
    pub fn set_quiet(&mut self, quiet: bool)
        ensures
            final(self).choice() == if old(self).choice() is None {
                Some(quiet)
            } else {
                old(self).choice()
            },
    {
        if self.quiet.is_none() {
            self.quiet = Some(quiet);
        }
    }

    /// Whether notices are printed: unless the choice was to be quiet, so that
    /// what runs before any choice is not silent.
    pub fn notices_enabled(&self) -> (r: bool)
        ensures
            r == (self.choice() != Some(true)),
    {
        match self.quiet {
            Some(q) => !q,
            None => true,
        }
    }
}

/// A second choice changes nothing.
pub proof fn law_the_first_choice_stands(
    before: Notices,
    once: Notices,
    twice: Notices,
    first: bool,
    second: bool,
)
    requires
        before.choice() is None,
        once.choice() == (if before.choice() is None {
            Some(first)
        } else {
            before.choice()
        }),
        twice.choice() == (if once.choice() is None {
            Some(second)
        } else {
            once.choice()
        }),
    ensures
        twice.choice() == Some(first),
{
}

} // verus!
