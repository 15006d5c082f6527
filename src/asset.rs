//! Quoted assets.
use vstd::prelude::*;

verus! {

/// What an asset is, as a value: which kind it is and the text naming it.
pub enum AssetView {
    Stellar(Seq<char>),
    Other(Seq<char>),
}

/// A quoted asset: a native ledger account reference (its address text), or
/// an opaque symbolic code. Two assets are equal when kind and text are.
#[derive(Debug)]
pub enum Asset {
    Stellar(String),
    Other(String),
}

impl View for Asset {
    type V = AssetView;

    open spec fn view(&self) -> AssetView {
        match self {
            Asset::Stellar(s) => AssetView::Stellar(s@),
            Asset::Other(s) => AssetView::Other(s@),
        }
    }
}

impl Asset {
    /// A copy of this asset.
    pub fn copy(&self) -> (r: Asset)
        ensures
            r@ == self@,
    {
        match self {
            Asset::Stellar(s) => Asset::Stellar(s.clone()),
            Asset::Other(s) => Asset::Other(s.clone()),
        }
    }

    /// Whether two assets are the same.
    pub fn same(&self, other: &Asset) -> (r: bool)
        ensures
            r == (self@ == other@),
    {
        match self {
            Asset::Stellar(a) => match other {
                Asset::Stellar(b) => a.eq(b),
                Asset::Other(_) => false,
            },
            Asset::Other(a) => match other {
                Asset::Stellar(_) => false,
                Asset::Other(b) => a.eq(b),
            },
        }
    }
}

impl PartialEq for Asset {
    fn eq(&self, other: &Asset) -> (r: bool) {
        self.same(other)
    }
}

impl vstd::std_specs::cmp::PartialEqSpecImpl for Asset {
    open spec fn obeys_eq_spec() -> bool {
        true
    }

    open spec fn eq_spec(&self, other: &Asset) -> bool {
        self@ == other@
    }
}

impl Eq for Asset {
}

impl Clone for Asset {
    fn clone(&self) -> (r: Asset)
        ensures
            r@ == self@,
    {
        self.copy()
    }
}

} // verus!
