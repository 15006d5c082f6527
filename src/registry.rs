//! The ordered, duplicate-free list of quoted assets. An asset's index is its
//! position in registration order.
use vstd::prelude::*;
use crate::asset::{Asset, AssetView};
use crate::error::Error;

verus! {

/// How many assets the registry can hold: an index must fit one byte.
pub const MAX_ASSETS: usize = 256;

/// The first position at or after `i` where `a` stands in `s`.
pub open spec fn find_from(s: Seq<AssetView>, a: AssetView, i: nat) -> Option<nat>
    decreases s.len() - i,
{
    if i >= s.len() {
        None
    } else if s[i as int] == a {
        Some(i)
    } else {
        find_from(s, a, i + 1)
    }
}

/// The index of `a` in the registration order `s`, if it is registered.
pub open spec fn index_of(s: Seq<AssetView>, a: AssetView) -> Option<nat> {
    find_from(s, a, 0)
}

/// No asset stands twice in `s`.
pub open spec fn distinct(s: Seq<AssetView>) -> bool {
    forall|i: int, j: int| 0 <= i < j < s.len() ==> s[i] != s[j]
}

/// A registration order the registry can hold.
pub open spec fn valid_registry(s: Seq<AssetView>) -> bool {
    distinct(s) && s.len() <= MAX_ASSETS
}

/// Why registering `a` after `s` fails, if it does.
pub open spec fn register_error(s: Seq<AssetView>, a: AssetView) -> Option<Error> {
    if s.contains(a) {
        Some(Error::AssetAlreadyPresented)
    } else if s.len() >= MAX_ASSETS {
        Some(Error::AssetLimitExceeded)
    } else {
        None
    }
}

/// Why registering `batch` after `s` fails, if it does: an asset of the
/// batch that is registered already or named twice in the batch is reported
/// first, whatever the size; only then a registry that would grow past
/// `MAX_ASSETS`.
pub open spec fn batch_error(s: Seq<AssetView>, batch: Seq<AssetView>) -> Option<Error> {
    if !distinct(s + batch) {
        Some(Error::AssetAlreadyPresented)
    } else if s.len() + batch.len() > MAX_ASSETS {
        Some(Error::AssetLimitExceeded)
    } else {
        None
    }
}

proof fn lemma_find_from(s: Seq<AssetView>, a: AssetView, i: nat)
    ensures
        match find_from(s, a, i) {
            Some(k) => i <= k < s.len() && s[k as int] == a && forall|j: int|
                i <= j < k ==> s[j] != a,
            None => forall|j: int| i <= j < s.len() ==> s[j] != a,
        },
    decreases s.len() - i,
{
    if i < s.len() {
        lemma_find_from(s, a, i + 1);
    }
}

/// Where the index of an asset leads: its own position, or no position at
/// all when it is not registered.
pub proof fn lemma_index_of(s: Seq<AssetView>, a: AssetView)
    requires
        distinct(s),
    ensures
        match index_of(s, a) {
            Some(k) => k < s.len() && s[k as int] == a,
            None => !s.contains(a),
        },
        forall|k: int| 0 <= k < s.len() && s[k] == a ==> index_of(s, a) == Some(k as nat),
{
    lemma_find_from(s, a, 0);
}

/// Registering an asset that is registered already fails with
/// `AssetAlreadyPresented` (and `register` then leaves the registry, so
/// every index, as it was).
pub proof fn lemma_register_duplicate(s: Seq<AssetView>, a: AssetView)
    requires
        s.contains(a),
    ensures
        register_error(s, a) == Some(Error::AssetAlreadyPresented),
{
}

/// Registering a batch of assets in order, when it succeeds, gives position
/// `j` of the batch the index `s.len() + j`: the new indexes are distinct
/// and strictly increasing, and the assets registered before keep theirs.
pub proof fn lemma_batch_indices(s: Seq<AssetView>, batch: Seq<AssetView>)
    requires
        valid_registry(s),
        batch_error(s, batch) is None,
    ensures
        valid_registry(s + batch),
        forall|j: int| 0 <= j < batch.len() ==> index_of(s + batch, #[trigger] batch[j]) == Some(
            (s.len() + j) as nat,
        ),
        forall|a: AssetView| s.contains(a) ==> index_of(s + batch, a) == index_of(s, a),
{
    let all = s + batch;
    assert forall|j: int| 0 <= j < batch.len() implies index_of(all, #[trigger] batch[j]) == Some(
        (s.len() + j) as nat,
    ) by {
        assert(all[s.len() + j] == batch[j]);
        lemma_index_of(all, batch[j]);
    }
    assert forall|a: AssetView| s.contains(a) implies index_of(all, a) == index_of(s, a) by {
        let k = choose|k: int| 0 <= k < s.len() && s[k] == a;
        assert(all[k] == a);
        lemma_index_of(all, a);
        lemma_index_of(s, a);
    }
}

/// A batch that leaves the registry valid registers without error.
pub proof fn lemma_valid_batch(s: Seq<AssetView>, batch: Seq<AssetView>)
    requires
        valid_registry(s + batch),
    ensures
        batch_error(s, batch) is None,
{
}

/// A view of the assets as a sequence of values.
pub open spec fn views(v: Seq<Asset>) -> Seq<AssetView> {
    v.map_values(|a: Asset| a@)
}

/// A copy of a list of assets.
pub fn copy_assets(v: &Vec<Asset>) -> (r: Vec<Asset>)
    ensures
        views(r@) == views(v@),
{
    let mut out: Vec<Asset> = Vec::new();
    let mut i: usize = 0;
    while i < v.len()
        invariant
            i <= v@.len(),
            out@.len() == i,
            forall|j: int| 0 <= j < i ==> #[trigger] out@[j]@ == v@[j]@,
        decreases v@.len() - i,
    {
        let ghost prev = out@;
        out.push(v[i].copy());
        i = i + 1;
    }
    assert(views(out@) =~= views(v@));
    out
}

/// The quoted assets in registration order.
pub struct AssetRegistry {
    assets: Vec<Asset>,
}

impl View for AssetRegistry {
    type V = Seq<AssetView>;

    closed spec fn view(&self) -> Seq<AssetView> {
        views(self.assets@)
    }
}

impl AssetRegistry {
    /// The registry holds no duplicates and at most `MAX_ASSETS` assets.
    pub open spec fn wf(&self) -> bool {
        valid_registry(self@)
    }

    /// An empty registry.
    pub fn new() -> (r: AssetRegistry)
        ensures
            r.wf(),
            r@ == Seq::<AssetView>::empty(),
    {
        let r = AssetRegistry { assets: Vec::new() };
        assert(r@ =~= Seq::<AssetView>::empty());
        r
    }

    /// How many assets are registered.
    pub fn len(&self) -> (r: usize)
        ensures
            r == self@.len(),
    {
        self.assets.len()
    }

    /// The registered assets, in registration order.
    pub fn all(&self) -> (r: &Vec<Asset>)
        ensures
            views(r@) == self@,
    {
        &self.assets
    }

    /// The index of `asset`, or `None` when it is not registered.
    pub fn index_of(&self, asset: &Asset) -> (r: Option<u8>)
        requires
            self.wf(),
        ensures
            r == (match index_of(self@, asset@) {
                Some(k) => Some(k as u8),
                None => None::<u8>,
            }),
    {
        let ghost s = self@;
        let mut i: usize = 0;
        while i < self.assets.len()
            invariant
                s == self@,
                valid_registry(s),
                i <= s.len(),
                find_from(s, asset@, i as nat) == find_from(s, asset@, 0),
            decreases s.len() - i,
        {
            if self.assets[i].same(asset) {
                assert(find_from(s, asset@, i as nat) == Some(i as nat));
                return Some(i as u8);
            }
            i = i + 1;
        }
        None
    }

    /// Registers `asset` under the next index.
    pub fn register(&mut self, asset: Asset) -> (r: Result<u8, Error>)
        requires
            old(self).wf(),
        ensures
            final(self).wf(),
            match register_error(old(self)@, asset@) {
                Some(e) => r == Err::<u8, Error>(e) && final(self)@ == old(self)@,
                None => r == Ok::<u8, Error>(old(self)@.len() as u8) && final(self)@
                    == old(self)@.push(asset@),
            },
    {
        proof {
            lemma_index_of(self@, asset@);
        }
        if self.index_of(&asset).is_some() {
            return Err(Error::AssetAlreadyPresented);
        }
        let n = self.assets.len();
        if n >= MAX_ASSETS {
            return Err(Error::AssetLimitExceeded);
        }
        let ghost before = self.assets@;
        self.assets.push(asset);
        assert(views(self.assets@) =~= views(before).push(self.assets@[n as int]@));
        Ok(n as u8)
    }

    /// Registers the assets of `batch` in order, or none of them.
    pub fn register_all(&mut self, batch: &Vec<Asset>) -> (r: Result<(), Error>)
        requires
            old(self).wf(),
        ensures
            final(self).wf(),
            match batch_error(old(self)@, views(batch@)) {
                Some(e) => r == Err::<(), Error>(e) && final(self)@ == old(self)@,
                None => r == Ok::<(), Error>(()) && final(self)@ == old(self)@ + views(batch@),
            },
    {
        let ghost s = self@;
        let ghost b = views(batch@);
        let n = batch.len();
        // Every asset of the batch must be new, to the registry and to the
        // batch before it.
        let mut i: usize = 0;
        while i < n
            invariant
                self@ == s,
                self.wf(),
                b == views(batch@),
                n == b.len(),
                i <= n,
                distinct(s + b.take(i as int)),
            decreases n - i,
        {
            let ghost all = s + b;
            assert(all[s.len() + i] == b[i as int]);
            proof {
                lemma_index_of(s, b[i as int]);
            }
            match self.index_of(&batch[i]) {
                Some(k) => {
                    assert(all[k as int] == b[i as int]);
                    return Err(Error::AssetAlreadyPresented);
                },
                None => {},
            }
            let mut j: usize = 0;
            while j < i
                invariant
                    self@ == s,
                    self.wf(),
                    all == s + b,
                    b == views(batch@),
                    n == b.len(),
                    j <= i < n,
                    forall|k: int| 0 <= k < j ==> b[k] != b[i as int],
                decreases i - j,
            {
                if batch[j].same(&batch[i]) {
                    assert(all[s.len() + j] == b[j as int]);
                    assert(all[s.len() + i] == b[i as int]);
                    return Err(Error::AssetAlreadyPresented);
                }
                j = j + 1;
            }
            let ghost pre = s + b.take(i as int);
            let ghost next = s + b.take(i + 1);
            assert(next =~= pre.push(b[i as int]));
            assert forall|x: int, y: int| 0 <= x < y < next.len() implies next[x] != next[y] by {
                if y == pre.len() {
                    if x < s.len() {
                        assert(s.contains(s[x]));
                    } else {
                        assert(next[x] == b[x - s.len()]);
                    }
                } else {
                    assert(next[x] == pre[x] && next[y] == pre[y]);
                }
            }
            i = i + 1;
        }
        assert(b.take(n as int) =~= b);
        if n > MAX_ASSETS - self.assets.len() {
            return Err(Error::AssetLimitExceeded);
        }
        // Nothing can fail from here on.
        let mut i: usize = 0;
        while i < n
            invariant
                self.wf(),
                b == views(batch@),
                n == b.len(),
                i <= n,
                distinct(s + b),
                s.len() + n <= MAX_ASSETS,
                self@ == s + b.take(i as int),
            decreases n - i,
        {
            let ghost all = s + b;
            let ghost here = self@;
            assert(here =~= all.take(s.len() + i));
            assert(!here.contains(b[i as int])) by {
                if here.contains(b[i as int]) {
                    let k = choose|k: int| 0 <= k < here.len() && here[k] == b[i as int];
                    assert(all[k] == all[s.len() + i]);
                }
            }
            let res = self.register(batch[i].copy());
            assert(b.take(i + 1) =~= b.take(i as int).push(b[i as int]));
            assert(self@ =~= s + b.take(i + 1));
            i = i + 1;
        }
        assert(b.take(n as int) =~= b);
        Ok(())
    }
}

} // verus!
