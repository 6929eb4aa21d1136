//! The physics representations of this library and the table of known
//! representations.
//!
//! Spin, Lorentz, colour fundamental and colour sextet representations are
//! dualizable; the bispinor and colour adjoint representations are self-dual.
use vstd::prelude::*;
use crate::reps::{LibraryRep, RepModel, RepOrientation};

verus! {

/// The fundamental spin representation `spf`; its dual is [`SpinAntiFundamental`].
#[derive(Clone, Copy, Debug, PartialEq, Eq, Structural, Default, Hash)]
pub struct SpinFundamental {}

/// The dual of [`SpinFundamental`].
#[derive(Clone, Copy, Debug, PartialEq, Eq, Structural, Default, Hash)]
pub struct SpinAntiFundamental {}

/// The Lorentz representation `lor`; its dual is [`LorentzUp`].
#[derive(Clone, Copy, Debug, PartialEq, Eq, Structural, Default, Hash)]
pub struct Lorentz {}

/// The dual of [`Lorentz`].
#[derive(Clone, Copy, Debug, PartialEq, Eq, Structural, Default, Hash)]
pub struct LorentzUp {}

/// The fundamental colour representation `cof`; its dual is [`ColorAntiFundamental`].
#[derive(Clone, Copy, Debug, PartialEq, Eq, Structural, Default, Hash)]
pub struct ColorFundamental {}

/// The dual of [`ColorFundamental`].
#[derive(Clone, Copy, Debug, PartialEq, Eq, Structural, Default, Hash)]
pub struct ColorAntiFundamental {}

/// The colour sextet representation `cos`; its dual is [`ColorAntiSextet`].
#[derive(Clone, Copy, Debug, PartialEq, Eq, Structural, Default, Hash)]
pub struct ColorSextet {}

/// The dual of [`ColorSextet`].
#[derive(Clone, Copy, Debug, PartialEq, Eq, Structural, Default, Hash)]
pub struct ColorAntiSextet {}

/// The self-dual bispinor representation `bis`.
#[derive(Clone, Copy, Debug, PartialEq, Eq, Structural, Default, Hash)]
pub struct Bispinor {}

/// The self-dual colour adjoint representation `coad`.
#[derive(Clone, Copy, Debug, PartialEq, Eq, Structural, Default, Hash)]
pub struct ColorAdjoint {}

impl SpinFundamental {
    pub fn dual(self) -> (r: SpinAntiFundamental)
        ensures
            r == (SpinAntiFundamental {}),
    {
        SpinAntiFundamental {}
    }

    pub fn name() -> (r: &'static str)
        ensures
            r@ == "spf"@,
    {
        "spf"
    }

    pub fn library_rep(self) -> (r: LibraryRep)
        ensures
            r@ == (RepModel { name: "spf"@, orientation: RepOrientation::Up }),
    {
        LibraryRep::new("spf", RepOrientation::Up)
    }
}

impl SpinAntiFundamental {
    pub fn dual(self) -> (r: SpinFundamental)
        ensures
            r == (SpinFundamental {}),
    {
        SpinFundamental {}
    }

    pub fn library_rep(self) -> (r: LibraryRep)
        ensures
            r@ == (RepModel { name: "spf"@, orientation: RepOrientation::Down }),
    {
        LibraryRep::new("spf", RepOrientation::Down)
    }
}

impl Lorentz {
    pub fn dual(self) -> (r: LorentzUp)
        ensures
            r == (LorentzUp {}),
    {
        LorentzUp {}
    }

    pub fn name() -> (r: &'static str)
        ensures
            r@ == "lor"@,
    {
        "lor"
    }

    pub fn library_rep(self) -> (r: LibraryRep)
        ensures
            r@ == (RepModel { name: "lor"@, orientation: RepOrientation::Up }),
    {
        LibraryRep::new("lor", RepOrientation::Up)
    }
}

impl LorentzUp {
    pub fn dual(self) -> (r: Lorentz)
        ensures
            r == (Lorentz {}),
    {
        Lorentz {}
    }

    pub fn library_rep(self) -> (r: LibraryRep)
        ensures
            r@ == (RepModel { name: "lor"@, orientation: RepOrientation::Down }),
    {
        LibraryRep::new("lor", RepOrientation::Down)
    }
}

impl ColorFundamental {
    pub fn dual(self) -> (r: ColorAntiFundamental)
        ensures
            r == (ColorAntiFundamental {}),
    {
        ColorAntiFundamental {}
    }

    pub fn name() -> (r: &'static str)
        ensures
            r@ == "cof"@,
    {
        "cof"
    }

    pub fn library_rep(self) -> (r: LibraryRep)
        ensures
            r@ == (RepModel { name: "cof"@, orientation: RepOrientation::Up }),
    {
        LibraryRep::new("cof", RepOrientation::Up)
    }
}

impl ColorAntiFundamental {
    pub fn dual(self) -> (r: ColorFundamental)
        ensures
            r == (ColorFundamental {}),
    {
        ColorFundamental {}
    }

    pub fn library_rep(self) -> (r: LibraryRep)
        ensures
            r@ == (RepModel { name: "cof"@, orientation: RepOrientation::Down }),
    {
        LibraryRep::new("cof", RepOrientation::Down)
    }
}

impl ColorSextet {
    pub fn dual(self) -> (r: ColorAntiSextet)
        ensures
            r == (ColorAntiSextet {}),
    {
        ColorAntiSextet {}
    }

    pub fn name() -> (r: &'static str)
        ensures
            r@ == "cos"@,
    {
        "cos"
    }

    pub fn library_rep(self) -> (r: LibraryRep)
        ensures
            r@ == (RepModel { name: "cos"@, orientation: RepOrientation::Up }),
    {
        LibraryRep::new("cos", RepOrientation::Up)
    }
}

impl ColorAntiSextet {
    pub fn dual(self) -> (r: ColorSextet)
        ensures
            r == (ColorSextet {}),
    {
        ColorSextet {}
    }

    pub fn library_rep(self) -> (r: LibraryRep)
        ensures
            r@ == (RepModel { name: "cos"@, orientation: RepOrientation::Down }),
    {
        LibraryRep::new("cos", RepOrientation::Down)
    }
}

impl Bispinor {
    pub fn dual(self) -> (r: Bispinor)
        ensures
            r == (Bispinor {}),
    {
        Bispinor {}
    }

    pub fn name() -> (r: &'static str)
        ensures
            r@ == "bis"@,
    {
        "bis"
    }

    pub fn library_rep(self) -> (r: LibraryRep)
        ensures
            r@ == (RepModel { name: "bis"@, orientation: RepOrientation::SelfDual }),
    {
        LibraryRep::new("bis", RepOrientation::SelfDual)
    }
}

impl ColorAdjoint {
    pub fn dual(self) -> (r: ColorAdjoint)
        ensures
            r == (ColorAdjoint {}),
    {
        ColorAdjoint {}
    }

    pub fn name() -> (r: &'static str)
        ensures
            r@ == "coad"@,
    {
        "coad"
    }

    pub fn library_rep(self) -> (r: LibraryRep)
        ensures
            r@ == (RepModel { name: "coad"@, orientation: RepOrientation::SelfDual }),
    {
        LibraryRep::new("coad", RepOrientation::SelfDual)
    }
}

/// The representations known to the library, by their base form: self-dual,
/// inline-metric or the upper form of a dualizable representation.
#[derive(Debug)]
pub struct RepTable {
    reps: Vec<LibraryRep>,
}

/// The models of a vector of representations.
pub open spec fn rep_views(v: Seq<LibraryRep>) -> Seq<RepModel> {
    v.map_values(|r: LibraryRep| r@)
}

/// Whether a representation is a base form (not the lower form of a dualizable one).
pub open spec fn is_base_rep(r: RepModel) -> bool {
    r.orientation != RepOrientation::Down
}

/// The table is well formed: base forms only, each name at most once.
pub open spec fn table_wf(t: Seq<RepModel>) -> bool {
    &&& forall|i: int| 0 <= i < t.len() ==> is_base_rep(#[trigger] t[i])
    &&& forall|i: int, j: int| 0 <= i < j < t.len() ==> t[i].name != t[j].name
}

/// The entry of the table with the given name, if any.
pub open spec fn table_lookup(t: Seq<RepModel>, name: Seq<char>) -> Option<RepModel>
    decreases t.len(),
{
    if t.len() == 0 {
        None
    } else if t.last().name == name {
        Some(t.last())
    } else {
        table_lookup(t.drop_last(), name)
    }
}

/// A name that the lookup does not find is the name of no entry.
proof fn lemma_lookup_none(t: Seq<RepModel>, name: Seq<char>)
    requires
        table_lookup(t, name) is None,
    ensures
        forall|i: int| 0 <= i < t.len() ==> #[trigger] t[i].name != name,
    decreases t.len(),
{
    if t.len() > 0 {
        lemma_lookup_none(t.drop_last(), name);
        assert forall|i: int| 0 <= i < t.len() implies #[trigger] t[i].name != name by {
            if i < t.len() - 1 {
                assert(t[i] == t.drop_last()[i]);
            }
        }
    }
}

/// Registering keeps the table well formed.
proof fn lemma_register_keeps_wf(t: Seq<RepModel>, name: Seq<char>, self_dual: bool)
    ensures
        table_wf(t) ==> table_wf(table_after_register(t, name, self_dual)),
{
    if table_wf(t) && table_lookup(t, name) is None {
        lemma_lookup_none(t, name);
        let u = table_after_register(t, name, self_dual);
        let r = register_outcome(t, name, self_dual)->Ok_0;
        assert(u == t.push(r));
        assert forall|i: int, j: int| 0 <= i < j < u.len() implies u[i].name != u[j].name by {
            if j < t.len() {
                assert(u[i] == t[i] && u[j] == t[j]);
            } else {
                assert(u[i] == t[i]);
            }
        }
        assert forall|i: int| 0 <= i < u.len() implies is_base_rep(#[trigger] u[i]) by {
            if i < t.len() {
                assert(u[i] == t[i]);
            }
        }
    }
}

/// Why a representation could not be registered.
#[derive(Clone, Copy, Debug, PartialEq, Eq, Structural)]
pub enum RepLibraryError {
    /// A representation of this name exists with a different duality.
    AlreadyExistsDifferentType,
}

/// The outcome of registering `name` as self-dual (or as dualizable) in `t`.
pub open spec fn register_outcome(t: Seq<RepModel>, name: Seq<char>, self_dual: bool) -> Result<
    RepModel,
    RepLibraryError,
> {
    match table_lookup(t, name) {
        Some(r) => {
            if self_dual == (r.orientation == RepOrientation::Up) {
                Err(RepLibraryError::AlreadyExistsDifferentType)
            } else {
                Ok(r)
            }
        },
        None => Ok(
            RepModel {
                name,
                orientation: if self_dual {
                    RepOrientation::SelfDual
                } else {
                    RepOrientation::Up
                },
            },
        ),
    }
}

/// The model of the table after registering `name`.
pub open spec fn table_after_register(t: Seq<RepModel>, name: Seq<char>, self_dual: bool) -> Seq<
    RepModel,
> {
    match (table_lookup(t, name), register_outcome(t, name, self_dual)) {
        (None, Ok(r)) => t.push(r),
        _ => t,
    }
}

impl RepTable {
    /// The entries of the table, in the order they were registered.
    pub closed spec fn model(&self) -> Seq<RepModel> {
        rep_views(self.reps@)
    }

    /// Every table is well formed: no entry is a lower form, and no name is
    /// registered twice.
    #[verifier::type_invariant]
    spec fn wf(self) -> bool {
        table_wf(self.model())
    }

    /// The entries of the table, in the order they were registered; the table
    /// is well formed.
    pub fn entries(&self) -> (r: &Vec<LibraryRep>)
        ensures
            rep_views(r@) == self.model(),
            table_wf(self.model()),
    {
        proof {
            use_type_invariant(self);
        }
        &self.reps
    }

    /// An empty table.
    pub fn empty() -> (r: RepTable)
        ensures
            r.model() == Seq::<RepModel>::empty(),
            table_wf(r.model()),
    {
        let r = RepTable { reps: Vec::new() };
        assert(r.model() =~= Seq::<RepModel>::empty());
        r
    }

    /// The entry of the table with the given name.
    pub fn lookup(&self, name: &String) -> (r: Option<&LibraryRep>)
        ensures
            match r {
                Some(x) => table_lookup(self.model(), name@) == Some(x@),
                None => table_lookup(self.model(), name@) is None,
            },
            table_wf(self.model()),
    {
        proof {
            use_type_invariant(self);
        }
        let mut i = self.reps.len();
        assert(self.reps@.subrange(0, i as int) =~= self.reps@);
        while i > 0
            invariant
                i <= self.reps.len(),
                table_wf(self.model()),
                table_lookup(self.model(), name@) == table_lookup(
                    rep_views(self.reps@.subrange(0, i as int)),
                    name@,
                ),
            decreases i,
        {
            proof {
                let s = self.reps@.subrange(0, i as int);
                assert(rep_views(s).drop_last() =~= rep_views(self.reps@.subrange(0, i - 1)));
            }
            if self.reps[i - 1].name == *name {
                return Some(&self.reps[i - 1]);
            }
            i = i - 1;
        }
        proof {
            assert(rep_views(self.reps@.subrange(0, 0)) =~= Seq::<RepModel>::empty());
        }
        None
    }

    /// Whether registering `name` with the given duality would succeed: no
    /// entry of that name, or one of the same duality.
    pub fn can_register(&self, name: &str, self_dual: bool) -> (r: bool)
        ensures
            r == register_outcome(self.model(), name@, self_dual) is Ok,
    {
        let n = String::from_str(name);
        match self.lookup(&n) {
            Some(found) => self_dual != (found.orientation == RepOrientation::Up),
            None => true,
        }
    }

    /// Registers `name` as a self-dual or as a dualizable representation: an
    /// entry of that name is returned when its duality agrees, refused when it
    /// does not, and a new entry is appended when there is none.
    pub fn register(&mut self, name: &str, self_dual: bool) -> (r: Result<LibraryRep, RepLibraryError>)
        ensures
            match (r, register_outcome(old(self).model(), name@, self_dual)) {
                (Ok(x), Ok(y)) => x@ == y,
                (Err(x), Err(y)) => x == y,
                _ => false,
            },
            final(self).model() == table_after_register(old(self).model(), name@, self_dual),
            table_wf(final(self).model()),
    {
        proof {
            use_type_invariant(&*self);
            lemma_register_keeps_wf(self.model(), name@, self_dual);
        }
        let n = String::from_str(name);
        match self.lookup(&n) {
            Some(found) => {
                let is_up = found.orientation == RepOrientation::Up;
                if self_dual == is_up {
                    Err(RepLibraryError::AlreadyExistsDifferentType)
                } else {
                    Ok(found.copy())
                }
            },
            None => {
                let o = if self_dual {
                    RepOrientation::SelfDual
                } else {
                    RepOrientation::Up
                };
                let rep = LibraryRep { name: n, orientation: o };
                let out = rep.copy();
                let ghost before = self.reps@;
                let mut entries: Vec<LibraryRep> = Vec::new();
                proof {
                    assert(rep_views(entries@) =~= Seq::<RepModel>::empty());
                }
                std::mem::swap(&mut entries, &mut self.reps);
                entries.push(rep);
                proof {
                    assert(rep_views(entries@) =~= rep_views(before).push(out@));
                }
                self.reps = entries;
                Ok(out)
            },
        }
    }
}

/// The table of representations after the library is initialised: the
/// Euclidean, Minkowski and Lorentz representations that every table starts
/// with, then the spin, bispinor and colour representations of this library.
pub open spec fn initialized_table() -> Seq<RepModel> {
    seq![
        RepModel { name: "euc"@, orientation: RepOrientation::SelfDual },
        RepModel { name: "mink"@, orientation: RepOrientation::InlineMetric },
        RepModel { name: "lor"@, orientation: RepOrientation::Up },
        RepModel { name: "spf"@, orientation: RepOrientation::Up },
        RepModel { name: "bis"@, orientation: RepOrientation::SelfDual },
        RepModel { name: "coad"@, orientation: RepOrientation::SelfDual },
        RepModel { name: "cof"@, orientation: RepOrientation::Up },
        RepModel { name: "cos"@, orientation: RepOrientation::Up },
    ]
}

/// Registers the representations of this library, after the Euclidean,
/// Minkowski and Lorentz ones, and returns the table.
pub fn initialize() -> (r: RepTable)
    ensures
        r.model() == initialized_table(),
        table_wf(r.model()),
{
    proof {
        reveal_strlit("euc");
        reveal_strlit("mink");
        reveal_strlit("lor");
        reveal_strlit("spf");
        reveal_strlit("bis");
        reveal_strlit("coad");
        reveal_strlit("cof");
        reveal_strlit("cos");
    }
    let mut v: Vec<LibraryRep> = Vec::new();
    v.push(LibraryRep::new("euc", RepOrientation::SelfDual));
    v.push(LibraryRep::new("mink", RepOrientation::InlineMetric));
    v.push(Lorentz {}.library_rep());
    v.push(SpinFundamental {}.library_rep());
    v.push(Bispinor {}.library_rep());
    v.push(ColorAdjoint {}.library_rep());
    v.push(ColorFundamental {}.library_rep());
    v.push(ColorSextet {}.library_rep());
    proof {
        let m = initialized_table();
        assert(rep_views(v@) =~= m);
        assert forall|i: int, j: int| 0 <= i < j < m.len() implies m[i].name != m[j].name by {
            if m[i].name.len() == m[j].name.len() {
                assert(m[i].name[0] != m[j].name[0] || m[i].name[2] != m[j].name[2]);
            }
        }
    }
    RepTable { reps: v }
}

/// Registering a representation a second time, with the same duality, gives
/// back the same representation and leaves the table as it was.
pub proof fn law_register_idempotent(t: Seq<RepModel>, name: Seq<char>, self_dual: bool)
    requires
        register_outcome(t, name, self_dual) is Ok,
    ensures
        register_outcome(table_after_register(t, name, self_dual), name, self_dual)
            == register_outcome(t, name, self_dual),
        table_after_register(table_after_register(t, name, self_dual), name, self_dual)
            == table_after_register(t, name, self_dual),
{
    let t2 = table_after_register(t, name, self_dual);
    match table_lookup(t, name) {
        Some(r) => {},
        None => {
            let r = register_outcome(t, name, self_dual)->Ok_0;
            assert(t2 == t.push(r));
            assert(t2.drop_last() =~= t);
            assert(table_lookup(t2, name) == Some(r));
        },
    }
}

} // verus!
