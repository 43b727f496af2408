//! The banner that asks for support, until it is dismissed.
use vstd::prelude::*;

verus! {

pub struct DonationBanner {
    dismissed: bool,
}

impl DonationBanner {
    /// A banner that is shown when `show` holds, and is already dismissed otherwise.
    pub fn new(show: bool) -> (b: Self)
        ensures
            b.is_dismissed_spec() == !show,
    {
        DonationBanner { dismissed: !show }
    }

    pub closed spec fn is_dismissed_spec(&self) -> bool {
        self.dismissed
    }

    /// Whether the banner is no longer shown.
    pub fn is_dismissed(&self) -> (r: bool)
        ensures
            r == self.is_dismissed_spec(),
    {
        self.dismissed
    }

    /// Hides the banner for good.
    pub fn dismiss(&mut self)
        ensures
            final(self).is_dismissed_spec(),
    {
        self.dismissed = true;
    }
}

} // verus!
