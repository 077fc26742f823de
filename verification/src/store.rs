//! The hierarchical variable store and its path cursors.
//!
//! A store owns a registry of named variables — each a tensor with a
//! trainability flag — on a fixed device.  Registration appends, never
//! overwrites: a name collision is resolved by appending a disambiguating
//! suffix derived from the current registry size (repeated, in the rare case
//! the suffixed name is itself taken) until the name is fresh, so names stay
//! pairwise distinct.  Entries keep registration order, which makes the
//! results of the bulk operations deterministic.
//!
//! An engine's handles share storage, so a caller can mutate a registered
//! parameter through the handle a registration returned.  In this value
//! model a handle is a snapshot; live parameters are read and updated in
//! place through [`VarStore::get`] and [`VarStore::set`].

use vstd::prelude::*;
use crate::device::{Device, Kind};
use crate::init::{init, init_ok, init_value_ok, Init};
use crate::shape::{dims_ok, prod};
use crate::tensor::{Tensor, TensorModel};
use crate::text::{
    joined, join_name, lemma_dec_digits_len, no_sep, push_suffix, rep_suffix, seg_views,
};
use vstd::string::StrSliceExecFns;
use vstd::string::StringExecFns;

verus! {

/// Registration starts the store's deterministic sampler here.
const FIRST_SEED: u64 = 0x9E3779B97F4A7C15;

/// What a store remembers about one variable.
pub ghost struct VarModel {
    pub name: Seq<char>,
    pub tensor: TensorModel,
    pub trainable: bool,
}

/// The mathematical value of a variable store: the registered variables in
/// registration order, and the store's device.
pub ghost struct StoreModel {
    pub vars: Seq<VarModel>,
    pub device: Device,
}

impl StoreModel {
    pub open spec fn contains_name(self, n: Seq<char>) -> bool {
        exists|i: int| 0 <= i < self.vars.len() && (#[trigger] self.vars[i]).name == n
    }

    /// Well-formed: names pairwise distinct, every tensor well-formed and on
    /// the store's device.
    pub open spec fn wf(self) -> bool {
        &&& forall|i: int, j: int|
            #![trigger self.vars[i].name, self.vars[j].name]
            0 <= i < j < self.vars.len() ==> self.vars[i].name != self.vars[j].name
        &&& forall|i: int| 0 <= i < self.vars.len() ==> (#[trigger] self.vars[i]).tensor.wf()
        &&& forall|i: int|
            0 <= i < self.vars.len() ==> (#[trigger] self.vars[i]).tensor.device == self.device
    }
}

struct Entry {
    name: String,
    tensor: Tensor,
    trainable: bool,
}

impl View for Entry {
    type V = VarModel;

    closed spec fn view(&self) -> VarModel {
        VarModel { name: self.name@, tensor: self.tensor@, trainable: self.trainable }
    }
}

/// A variable store: a registry of named parameter tensors on one device.
pub struct VarStore {
    entries: Vec<Entry>,
    device: Device,
    seed: u64,
}

impl View for VarStore {
    type V = StoreModel;

    closed spec fn view(&self) -> StoreModel {
        StoreModel { vars: self.entries@.map_values(|e: Entry| e@), device: self.device }
    }
}

/// A namespace cursor: an ordered list of segments, and the device of the
/// store the cursor was made from.  Registration through a path must hand
/// back the store it came from.
pub struct Path {
    path: Vec<String>,
    device: Device,
}

/// The mathematical value of a path cursor.
pub ghost struct PathModel {
    pub segments: Seq<Seq<char>>,
    pub device: Device,
}

impl View for Path {
    type V = PathModel;

    closed spec fn view(&self) -> PathModel {
        PathModel { segments: seg_views(self.path@), device: self.device }
    }
}

/// The tensor actually stored and returned by a registration: a trainable
/// variable starts with gradient tracking on.
pub open spec fn stored_model(t: TensorModel, trainable: bool) -> TensorModel {
    if trainable {
        t.with_grad(true)
    } else {
        t
    }
}

/// How one registration changes a store: exactly one variable is appended,
/// under the first fresh candidate name — the joined fully-qualified name,
/// suffixed as many times as it takes to avoid the names already present.
pub open spec fn registered(
    prev: StoreModel,
    post: StoreModel,
    segments: Seq<Seq<char>>,
    leaf: Seq<char>,
    t: TensorModel,
    trainable: bool,
) -> bool {
    exists|j: nat|
        #![auto]
        {
            &&& post.vars == prev.vars.push(
                VarModel {
                    name: rep_suffix(joined(segments, leaf), prev.vars.len(), j),
                    tensor: t,
                    trainable,
                },
            )
            &&& post.device == prev.device
            &&& !prev.contains_name(rep_suffix(joined(segments, leaf), prev.vars.len(), j))
            &&& forall|p: nat|
                p < j ==> prev.contains_name(rep_suffix(joined(segments, leaf), prev.vars.len(), p))
        }
}

/// Registration never overwrites: the variable appended by a registration
/// carries a name no existing variable had, so on a well-formed store every
/// registered name stays unique, whatever sequence of registrations led
/// there.
pub proof fn lemma_registration_keeps_names_unique(
    prev: StoreModel,
    post: StoreModel,
    segments: Seq<Seq<char>>,
    leaf: Seq<char>,
    t: TensorModel,
    trainable: bool,
)
    requires
        prev.wf(),
        t.wf(),
        t.device == prev.device,
        registered(prev, post, segments, leaf, t, trainable),
    ensures
        post.wf(),
        !prev.contains_name(post.vars.last().name),
{
    let j = choose|j: nat|
        #![auto]
        {
            &&& post.vars == prev.vars.push(
                VarModel {
                    name: rep_suffix(joined(segments, leaf), prev.vars.len(), j),
                    tensor: t,
                    trainable,
                },
            )
            &&& post.device == prev.device
            &&& !prev.contains_name(rep_suffix(joined(segments, leaf), prev.vars.len(), j))
            &&& forall|p: nat|
                p < j ==> prev.contains_name(rep_suffix(joined(segments, leaf), prev.vars.len(), p))
        };
    let fresh = rep_suffix(joined(segments, leaf), prev.vars.len(), j);
    assert forall|i: int, q: int|
        #![trigger post.vars[i].name, post.vars[q].name]
        0 <= i < q < post.vars.len() implies post.vars[i].name != post.vars[q].name by {
        if q < prev.vars.len() {
            assert(prev.vars[i].name != prev.vars[q].name);
        } else {
            if prev.vars[i].name == fresh {
                assert(prev.contains_name(fresh));
            }
        }
    }
}

/// Whether some entry carries the given name.
fn has_name(entries: &Vec<Entry>, name: &String) -> (r: bool)
    ensures
        r == exists|i: int| 0 <= i < entries@.len() && (#[trigger] entries@[i])@.name == name@,
{
    let n = entries.len();
    let mut j: usize = 0;
    while j < n
        invariant
            n == entries@.len(),
            0 <= j <= n,
            forall|i: int| 0 <= i < j ==> (#[trigger] entries@[i])@.name != name@,
        decreases n - j,
    {
        if entries[j].name.eq(name) {
            return true;
        }
        j += 1;
    }
    false
}

/// An upper bound on the lengths of all registered names.
fn max_name_len(entries: &Vec<Entry>) -> (m: usize)
    ensures
        forall|i: int| 0 <= i < entries@.len() ==> (#[trigger] entries@[i])@.name.len() <= m,
{
    let n = entries.len();
    let mut m: usize = 0;
    let mut j: usize = 0;
    while j < n
        invariant
            n == entries@.len(),
            0 <= j <= n,
            forall|i: int| 0 <= i < j ==> (#[trigger] entries@[i])@.name.len() <= m,
        decreases n - j,
    {
        let l = entries[j].name.as_str().unicode_len();
        if l > m {
            m = l;
        }
        j += 1;
    }
    m
}

impl VarStore {
    /// An empty store bound to `device`.
    pub fn new(device: Device) -> (r: VarStore)
        ensures
            r@.wf(),
            r@.vars.len() == 0,
            r@.device == device,
    {
        let r = VarStore { entries: Vec::new(), device, seed: FIRST_SEED };
        proof {
            assert(r@.vars =~= Seq::<VarModel>::empty());
        }
        r
    }

    /// The device every variable of this store lives on.
    pub fn device(&self) -> (r: Device)
        ensures
            r == self@.device,
    {
        self.device
    }

    /// A root path over this store.
    pub fn root(&self) -> (r: Path)
        ensures
            r@.segments.len() == 0,
            r@.device == self@.device,
    {
        let r = Path { path: Vec::new(), device: self.device };
        proof {
            assert(r@.segments =~= Seq::<Seq<char>>::empty());
        }
        r
    }
}

impl Path {
    /// The child path one segment deeper.  The segment must not contain the
    /// reserved separator.
    pub fn sub(&self, s: &str) -> (r: Path)
        requires
            no_sep(s@),
        ensures
            r@.segments == self@.segments.push(s@),
            r@.device == self@.device,
    {
        let mut path: Vec<String> = Vec::new();
        let mut j: usize = 0;
        while j < self.path.len()
            invariant
                0 <= j <= self.path@.len(),
                path@.len() == j,
                forall|i: int| 0 <= i < j ==> (#[trigger] path@[i])@ == self.path@[i]@,
            decreases self.path@.len() - j,
        {
            path.push(self.path[j].clone());
            j += 1;
        }
        path.push(String::from_str(s));
        let r = Path { path, device: self.device };
        proof {
            assert(r@.segments =~= self@.segments.push(s@));
        }
        r
    }

    /// The device of the store this path was made from.
    pub fn device(&self) -> (r: Device)
        ensures
            r == self@.device,
    {
        self.device
    }

    /// The fully-qualified name of `name` under this path.
    fn path(&self, name: &str) -> (r: String)
        requires
            no_sep(name@),
        ensures
            r@ == joined(self@.segments, name@),
    {
        join_name(&self.path, name)
    }

    /// Registers `tensor` under this path with the given leaf name and
    /// trainability, disambiguating the name on collision, and returns the
    /// registered handle.  Trainable variables start with gradient tracking
    /// on.
    fn add(&self, store: &mut VarStore, name: &str, tensor: Tensor, trainable: bool) -> (r:
        Tensor)
        requires
            no_sep(name@),
            old(store)@.wf(),
            tensor@.wf(),
            tensor@.device == old(store)@.device,
            self@.device == old(store)@.device,
        ensures
            final(store)@.wf(),
            registered(
                old(store)@,
                final(store)@,
                self@.segments,
                name@,
                stored_model(tensor@, trainable),
                trainable,
            ),
            r@ == stored_model(tensor@, trainable),
    {
        let full = self.path(name);
        let ghost base = full@;
        let count = store.entries.len() as u64;
        let ghost countn = store.entries@.len() as nat;
        let maxlen = max_name_len(&store.entries);
        let mut candidate = full;
        let ghost mut tries: nat = 0nat;
        proof {
            assert(candidate@ == rep_suffix(base, countn, 0nat));
        }
        while has_name(&store.entries, &candidate)
            invariant
                *store == *old(store),
                old(store)@.wf(),
                countn == old(store)@.vars.len(),
                count == countn,
                candidate@ == rep_suffix(base, countn, tries),
                candidate@.len() >= base.len() + 3 * tries,
                forall|p: nat| p < tries ==> old(store)@.contains_name(
                    rep_suffix(base, countn, p),
                ),
                forall|i: int| 0 <= i < store.entries@.len() ==> (#[trigger] store.entries@[i])@
                    .name.len() <= maxlen,
            decreases maxlen + 3 - 3 * tries,
        {
            proof {
                let witness = choose|i: int| 0 <= i < store.entries@.len() && (
                #[trigger] store.entries@[i])@.name == candidate@;
                assert(store@.vars[witness].name == candidate@);
                assert(old(store)@.contains_name(rep_suffix(base, countn, tries)));
                assert(candidate@.len() <= maxlen);
                lemma_dec_digits_len(countn);
            }
            candidate = push_suffix(candidate, count);
            proof {
                tries = tries + 1nat;
            }
        }
        let stored = if trainable {
            tensor.set_requires_grad(true)
        } else {
            tensor
        };
        let handle = stored.shallow_clone();
        let ghost chosen = candidate@;
        let ghost prev = store@;
        store.entries.push(Entry { name: candidate, tensor: stored, trainable });
        proof {
            assert forall|i: int| 0 <= i < prev.vars.len() implies (#[trigger] prev.vars[i]).name
                != chosen by {
                if prev.vars[i].name == chosen {
                    assert(exists|q: int| 0 <= q < old(store).entries@.len() && (
                    #[trigger] old(store).entries@[q])@.name == chosen);
                }
            }
            assert(store@.vars =~= prev.vars.push(
                VarModel {
                    name: chosen,
                    tensor: stored_model(tensor@, trainable),
                    trainable,
                },
            ));
            assert(!prev.contains_name(chosen));
            assert(registered(
                prev,
                store@,
                self@.segments,
                name@,
                stored_model(tensor@, trainable),
                trainable,
            ));
        }
        handle
    }
}

/// Why a store operation failed; each variant carries the offending
/// variable's fully-qualified name.
#[derive(Debug)]
pub enum StoreError {
    /// During a strict load, a registered variable was absent from the
    /// loaded snapshot.
    MissingVariable(String),
    /// A value with the wrong number of elements was about to be copied into
    /// a registered variable.
    ShapeMismatch(String),
}

/// The trainable variables' tensors, in registration order.
pub open spec fn trainables(vars: Seq<VarModel>) -> Seq<TensorModel>
    decreases vars.len(),
{
    if vars.len() == 0 {
        Seq::empty()
    } else if vars[0].trainable {
        seq![vars[0].tensor] + trainables(vars.skip(1))
    } else {
        trainables(vars.skip(1))
    }
}

/// The first tensor stored under name `n` in a saved snapshot.
pub open spec fn spec_lookup(named: Seq<(String, Tensor)>, n: Seq<char>) -> Option<TensorModel>
    decreases named.len(),
{
    if named.len() == 0 {
        None
    } else if named[0].0@ == n {
        Some(named[0].1@)
    } else {
        spec_lookup(named.skip(1), n)
    }
}

proof fn lemma_spec_lookup_at(named: Seq<(String, Tensor)>, n: Seq<char>, i: int)
    requires
        0 <= i < named.len(),
        named[i].0@ == n,
        forall|p: int| 0 <= p < i ==> (#[trigger] named[p]).0@ != n,
    ensures
        spec_lookup(named, n) == Some(named[i].1@),
    decreases i,
{
    if i > 0 {
        assert(named.skip(1)[i - 1] == named[i]);
        assert forall|p: int| 0 <= p < i - 1 implies (#[trigger] named.skip(1)[p]).0@ != n by {
            assert(named.skip(1)[p] == named[p + 1]);
        }
        lemma_spec_lookup_at(named.skip(1), n, i - 1);
    }
}

proof fn lemma_spec_lookup_none(named: Seq<(String, Tensor)>, n: Seq<char>)
    requires
        forall|p: int| 0 <= p < named.len() ==> (#[trigger] named[p]).0@ != n,
    ensures
        spec_lookup(named, n) is None,
    decreases named.len(),
{
    if named.len() > 0 {
        assert forall|p: int| 0 <= p < named.len() - 1 implies (#[trigger] named.skip(1)[p]).0@
            != n by {
            assert(named.skip(1)[p] == named[p + 1]);
        }
        lemma_spec_lookup_none(named.skip(1), n);
    }
}

/// The position of the first snapshot pair named `name`, if any.
fn find_named(named: &Vec<(String, Tensor)>, name: &String) -> (r: Option<usize>)
    ensures
        match r {
            Some(i) => i < named@.len() && named@[i as int].0@ == name@ && (forall|p: int|
                0 <= p < i ==> (#[trigger] named@[p]).0@ != name@) && spec_lookup(named@, name@)
                == Some(named@[i as int].1@),
            None => spec_lookup(named@, name@) is None,
        },
{
    let n = named.len();
    let mut j: usize = 0;
    while j < n
        invariant
            n == named@.len(),
            0 <= j <= n,
            forall|p: int| 0 <= p < j ==> (#[trigger] named@[p]).0@ != name@,
        decreases n - j,
    {
        if named[j].0.eq(name) {
            proof {
                lemma_spec_lookup_at(named@, name@, j as int);
            }
            return Some(j);
        }
        j += 1;
    }
    proof {
        lemma_spec_lookup_none(named@, name@);
    }
    None
}

/// Whether a registered variable can be restored from a snapshot: its name
/// is present, with as many elements as the variable holds.
pub open spec fn var_loadable(v: VarModel, named: Seq<(String, Tensor)>) -> bool {
    match spec_lookup(named, v.name) {
        Some(t) => t.data.len() == v.tensor.data.len(),
        None => false,
    }
}

/// The elements a load leaves in a variable: the snapshot's, where the name
/// is present, and the variable's own otherwise.
pub open spec fn loaded_data(v: VarModel, named: Seq<(String, Tensor)>) -> Seq<i64> {
    match spec_lookup(named, v.name) {
        Some(t) => t.data,
        None => v.tensor.data,
    }
}

/// A variable after a load: values overwritten in place, name, trainability
/// and gradient bookkeeping untouched.
pub open spec fn loaded_var(v: VarModel, named: Seq<(String, Tensor)>) -> VarModel {
    VarModel { tensor: v.tensor.with_data(loaded_data(v, named)), ..v }
}

/// The names registered in `vars` but absent from the snapshot, in
/// registration order.
pub open spec fn missing_names(vars: Seq<VarModel>, named: Seq<(String, Tensor)>) -> Seq<
    Seq<char>,
>
    decreases vars.len(),
{
    if vars.len() == 0 {
        Seq::empty()
    } else if spec_lookup(named, vars[0].name) is None {
        seq![vars[0].name] + missing_names(vars.skip(1), named)
    } else {
        missing_names(vars.skip(1), named)
    }
}

impl VarStore {
    /// A snapshot of all trainable variables' tensors.
    pub fn trainable_variables(&self) -> (r: Vec<Tensor>)
        ensures
            r@.map_values(|t: Tensor| t@) == trainables(self@.vars),
    {
        let ghost vars = self@.vars;
        let n = self.entries.len();
        let mut out: Vec<Tensor> = Vec::new();
        proof {
            assert(vars.skip(0) =~= vars);
            assert(out@.map_values(|t: Tensor| t@) + trainables(vars) =~= trainables(vars));
        }
        let mut j: usize = 0;
        while j < n
            invariant
                n == self.entries@.len(),
                vars == self@.vars,
                0 <= j <= n,
                out@.map_values(|t: Tensor| t@) + trainables(vars.skip(j as int)) == trainables(
                    vars,
                ),
            decreases n - j,
        {
            proof {
                assert(vars.skip(j as int)[0] == vars[j as int]);
                assert(vars.skip(j as int).skip(1) =~= vars.skip(j + 1));
            }
            if self.entries[j].trainable {
                let t = self.entries[j].tensor.shallow_clone();
                out.push(t);
                proof {
                    assert(out@.map_values(|t: Tensor| t@) + trainables(vars.skip(j + 1))
                        =~= trainables(vars));
                }
            } else {
                proof {
                    assert(out@.map_values(|t: Tensor| t@) + trainables(vars.skip(j + 1))
                        =~= trainables(vars));
                }
            }
            j += 1;
        }
        proof {
            assert(vars.skip(n as int) =~= Seq::<VarModel>::empty());
            assert(out@.map_values(|t: Tensor| t@) =~= trainables(vars));
        }
        out
    }

    /// A snapshot of the variable registered under `name`, if any.
    pub fn get(&self, name: &String) -> (r: Option<Tensor>)
        ensures
            match r {
                Some(t) => exists|i: int|
                    0 <= i < self@.vars.len() && (#[trigger] self@.vars[i]).name == name@ && t@
                        == self@.vars[i].tensor,
                None => !self@.contains_name(name@),
            },
    {
        let n = self.entries.len();
        let mut j: usize = 0;
        while j < n
            invariant
                n == self.entries@.len(),
                0 <= j <= n,
                forall|p: int| 0 <= p < j ==> (#[trigger] self.entries@[p])@.name != name@,
            decreases n - j,
        {
            if self.entries[j].name.eq(name) {
                let t = self.entries[j].tensor.shallow_clone();
                proof {
                    assert(self@.vars[j as int].name == name@);
                    assert(t@ == self@.vars[j as int].tensor);
                }
                return Some(t);
            }
            j += 1;
        }
        proof {
            assert forall|p: int| 0 <= p < self@.vars.len() implies (#[trigger] self@.vars[p])
                .name != name@ by {
                assert(self.entries@[p]@.name != name@);
            }
        }
        None
    }

    /// Overwrites the elements of the variable registered under `name` in
    /// place; its shape, trainability and gradient bookkeeping stay.  Fails
    /// with `MissingVariable` on an unknown name and with `ShapeMismatch`
    /// when `value` holds a different number of elements.
    pub fn set(&mut self, name: &String, value: &Tensor) -> (r: Result<(), StoreError>)
        requires
            old(self)@.wf(),
        ensures
            final(self)@.wf(),
            final(self)@.device == old(self)@.device,
            match r {
                Ok(()) => exists|i: int|
                    #![auto]
                    0 <= i < old(self)@.vars.len() && old(self)@.vars[i].name == name@ && old(
                        self,
                    )@.vars[i].tensor.data.len() == value@.data.len() && final(self)@.vars == old(
                        self,
                    )@.vars.update(
                        i,
                        (VarModel {
                            tensor: old(self)@.vars[i].tensor.with_data(value@.data),
                            ..old(self)@.vars[i]
                        }),
                    ),
                Err(StoreError::MissingVariable(nm)) => nm@ == name@ && !old(
                    self,
                )@.contains_name(name@) && final(self)@ == old(self)@,
                Err(StoreError::ShapeMismatch(nm)) => nm@ == name@ && final(self)@ == old(self)@
                    && exists|i: int|
                    #![auto]
                    0 <= i < old(self)@.vars.len() && old(self)@.vars[i].name == name@ && old(
                        self,
                    )@.vars[i].tensor.data.len() != value@.data.len(),
            },
    {
        let n = self.entries.len();
        let mut j: usize = 0;
        while j < n
            invariant
                old(self)@.wf(),
                n == self.entries@.len(),
                0 <= j <= n,
                forall|p: int| 0 <= p < j ==> (#[trigger] self.entries@[p])@.name != name@,
                *self == *old(self),
            decreases n - j,
        {
            if self.entries[j].name.eq(name) {
                if self.entries[j].tensor.numel() != value.numel() {
                    proof {
                        assert(self@.vars[j as int].name == name@);
                        assert(self@.vars[j as int].tensor.data.len() != value@.data.len());
                        assert(self@ == old(self)@);
                        assert(self@.wf());
                    }
                    return Err(StoreError::ShapeMismatch(name.clone()));
                }
                let nm = self.entries[j].name.clone();
                let tr = self.entries[j].trainable;
                let mut t = self.entries[j].tensor.shallow_clone();
                t.copy_(value);
                let ghost prev = self@;
                self.entries[j] = Entry { name: nm, tensor: t, trainable: tr };
                proof {
                    assert(self@.vars =~= prev.vars.update(
                        j as int,
                        (VarModel {
                            tensor: prev.vars[j as int].tensor.with_data(value@.data),
                            ..prev.vars[j as int]
                        }),
                    ));
                    assert forall|p: int| 0 <= p < self@.vars.len() implies (
                    #[trigger] self@.vars[p]).name == prev.vars[p].name && self@.vars[p].tensor.wf()
                        && self@.vars[p].tensor.device == self@.device by {
                        assert(prev.vars[p].tensor.wf());
                    }
                    assert forall|i: int, q: int|
                        #![trigger self@.vars[i].name, self@.vars[q].name]
                        0 <= i < q < self@.vars.len() implies self@.vars[i].name
                        != self@.vars[q].name by {
                        assert(prev.vars[i].name != prev.vars[q].name);
                    }
                }
                return Ok(());
            }
            j += 1;
        }
        proof {
            assert forall|p: int| 0 <= p < self@.vars.len() implies (#[trigger] self@.vars[p])
                .name != name@ by {
                assert(self.entries@[p]@.name != name@);
            }
        }
        Err(StoreError::MissingVariable(name.clone()))
    }
}

/// One variable as `freeze`/`unfreeze` leave it: a trainable variable's
/// gradient tracking is set to `grad`, everything else is untouched.
pub open spec fn freeze_step(v: VarModel, grad: bool) -> VarModel {
    if v.trainable {
        VarModel { tensor: v.tensor.with_grad(grad), ..v }
    } else {
        v
    }
}

/// A whole registry as `freeze`/`unfreeze` leave it.
pub open spec fn frozen(vars: Seq<VarModel>, grad: bool) -> Seq<VarModel> {
    vars.map_values(|v: VarModel| freeze_step(v, grad))
}

impl VarStore {
    fn set_grad_of_trainables(&mut self, grad: bool)
        requires
            old(self)@.wf(),
        ensures
            final(self)@.wf(),
            final(self)@.device == old(self)@.device,
            final(self)@.vars == frozen(old(self)@.vars, grad),
    {
        let n = self.entries.len();
        let mut j: usize = 0;
        while j < n
            invariant
                n == self.entries@.len(),
                old(self)@.wf(),
                0 <= j <= n,
                self.device == old(self).device,
                self.entries@.len() == old(self).entries@.len(),
                forall|p: int| 0 <= p < j ==> (#[trigger] self.entries@[p])@ == freeze_step(
                    old(self)@.vars[p],
                    grad,
                ),
                forall|p: int| j <= p < n ==> (#[trigger] self.entries@[p])@ == old(
                    self,
                )@.vars[p],
            decreases n - j,
        {
            if self.entries[j].trainable {
                let nm = self.entries[j].name.clone();
                let tr = self.entries[j].trainable;
                let t = self.entries[j].tensor.set_requires_grad(grad);
                self.entries[j] = Entry { name: nm, tensor: t, trainable: tr };
            }
            j += 1;
        }
        proof {
            assert(self@.vars =~= frozen(old(self)@.vars, grad));
            assert forall|i: int, q: int|
                #![trigger self@.vars[i].name, self@.vars[q].name]
                0 <= i < q < self@.vars.len() implies self@.vars[i].name != self@.vars[q].name by {
                assert(old(self)@.vars[i].name != old(self)@.vars[q].name);
            }
        }
    }

    /// Turns gradient tracking off for every trainable variable, without
    /// changing any stored trainability flag.  Idempotent.
    pub fn freeze(&mut self)
        requires
            old(self)@.wf(),
        ensures
            final(self)@.wf(),
            final(self)@.device == old(self)@.device,
            final(self)@.vars == frozen(old(self)@.vars, false),
    {
        self.set_grad_of_trainables(false);
    }

    /// Turns gradient tracking back on for every trainable variable, without
    /// changing any stored trainability flag.  Idempotent.
    pub fn unfreeze(&mut self)
        requires
            old(self)@.wf(),
        ensures
            final(self)@.wf(),
            final(self)@.device == old(self)@.device,
            final(self)@.vars == frozen(old(self)@.vars, true),
    {
        self.set_grad_of_trainables(true);
    }
}

impl Path {
    /// Registers a non-trainable variable filled with zeros.
    pub fn zeros_no_train(&self, store: &mut VarStore, name: &str, dims: &Vec<i64>) -> (r:
        Tensor)
        requires
            no_sep(name@),
            dims_ok(dims@),
            old(store)@.wf(),
            self@.device == old(store)@.device,
        ensures
            final(store)@.wf(),
            registered(old(store)@, final(store)@, self@.segments, name@, r@, false),
            r@.wf(),
            r@.shape == dims@,
            r@.data == Seq::new(prod(dims@) as nat, |t: int| 0i64),
            r@.kind == Kind::Float,
            r@.device == old(store)@.device,
            r@.requires_grad == false,
    {
        let t = Tensor::zeros(dims, Kind::Float, self.device);
        self.add(store, name, t, false)
    }

    /// Registers a non-trainable variable filled with ones.
    pub fn ones_no_train(&self, store: &mut VarStore, name: &str, dims: &Vec<i64>) -> (r:
        Tensor)
        requires
            no_sep(name@),
            dims_ok(dims@),
            old(store)@.wf(),
            self@.device == old(store)@.device,
        ensures
            final(store)@.wf(),
            registered(old(store)@, final(store)@, self@.segments, name@, r@, false),
            r@.wf(),
            r@.shape == dims@,
            r@.data == Seq::new(prod(dims@) as nat, |t: int| 1i64),
            r@.kind == Kind::Float,
            r@.device == old(store)@.device,
            r@.requires_grad == false,
    {
        let t = Tensor::ones(dims, Kind::Float, self.device);
        self.add(store, name, t, false)
    }

    /// Registers a trainable variable initialized per `i`; it starts with
    /// gradient tracking on.
    pub fn var(&self, store: &mut VarStore, name: &str, dims: &Vec<i64>, i: Init) -> (r: Tensor)
        requires
            no_sep(name@),
            dims_ok(dims@),
            init_ok(i, dims@),
            old(store)@.wf(),
            self@.device == old(store)@.device,
        ensures
            final(store)@.wf(),
            registered(old(store)@, final(store)@, self@.segments, name@, r@, true),
            r@.wf(),
            r@.shape == dims@,
            r@.kind == Kind::Float,
            r@.device == old(store)@.device,
            r@.requires_grad == true,
            forall|t: int| 0 <= t < r@.data.len() ==> init_value_ok(i, dims@, #[trigger] r@.data[t]),
    {
        let (t, next_seed) = init(i, dims, self.device, store.seed);
        store.seed = next_seed;
        proof {
            assert(store@ == old(store)@);
        }
        self.add(store, name, t, true)
    }

    /// Registers a trainable variable filled with zeros.
    pub fn zeros(&self, store: &mut VarStore, name: &str, dims: &Vec<i64>) -> (r: Tensor)
        requires
            no_sep(name@),
            dims_ok(dims@),
            old(store)@.wf(),
            self@.device == old(store)@.device,
        ensures
            final(store)@.wf(),
            registered(old(store)@, final(store)@, self@.segments, name@, r@, true),
            r@.wf(),
            r@.shape == dims@,
            r@.data == Seq::new(prod(dims@) as nat, |t: int| 0i64),
            r@.kind == Kind::Float,
            r@.device == old(store)@.device,
            r@.requires_grad == true,
    {
        let r = self.var(store, name, dims, Init::Const(0));
        proof {
            assert(r@.data =~= Seq::new(prod(dims@) as nat, |t: int| 0i64));
        }
        r
    }

    /// Registers a trainable variable filled with ones.
    pub fn ones(&self, store: &mut VarStore, name: &str, dims: &Vec<i64>) -> (r: Tensor)
        requires
            no_sep(name@),
            dims_ok(dims@),
            old(store)@.wf(),
            self@.device == old(store)@.device,
        ensures
            final(store)@.wf(),
            registered(old(store)@, final(store)@, self@.segments, name@, r@, true),
            r@.wf(),
            r@.shape == dims@,
            r@.data == Seq::new(prod(dims@) as nat, |t: int| 1i64),
            r@.kind == Kind::Float,
            r@.device == old(store)@.device,
            r@.requires_grad == true,
    {
        let r = self.var(store, name, dims, Init::Const(1));
        proof {
            assert(r@.data =~= Seq::new(prod(dims@) as nat, |t: int| 1i64));
        }
        r
    }

    /// Registers a trainable variable drawn from the standard centered
    /// distribution of the integer model: every element lies in `-1 ..= 1`.
    pub fn randn_standard(&self, store: &mut VarStore, name: &str, dims: &Vec<i64>) -> (r:
        Tensor)
        requires
            no_sep(name@),
            dims_ok(dims@),
            old(store)@.wf(),
            self@.device == old(store)@.device,
        ensures
            final(store)@.wf(),
            registered(old(store)@, final(store)@, self@.segments, name@, r@, true),
            r@.wf(),
            r@.shape == dims@,
            r@.kind == Kind::Float,
            r@.device == old(store)@.device,
            r@.requires_grad == true,
            forall|t: int| 0 <= t < r@.data.len() ==> -1 <= #[trigger] r@.data[t] <= 1,
    {
        self.var(store, name, dims, Init::Randn { mean: 0, stdev: 1 })
    }

    /// Registers a trainable variable drawn around `mean` with spread
    /// `stdev`: every element lies in `mean - stdev ..= mean + stdev`.
    pub fn randn(&self, store: &mut VarStore, name: &str, dims: &Vec<i64>, mean: i64, stdev: i64)
        -> (r: Tensor)
        requires
            no_sep(name@),
            dims_ok(dims@),
            init_ok(Init::Randn { mean, stdev }, dims@),
            old(store)@.wf(),
            self@.device == old(store)@.device,
        ensures
            final(store)@.wf(),
            registered(old(store)@, final(store)@, self@.segments, name@, r@, true),
            r@.wf(),
            r@.shape == dims@,
            r@.kind == Kind::Float,
            r@.device == old(store)@.device,
            r@.requires_grad == true,
            forall|t: int| 0 <= t < r@.data.len() ==> mean - stdev <= #[trigger] r@.data[t]
                <= mean + stdev,
    {
        self.var(store, name, dims, Init::Randn { mean, stdev })
    }

    /// Registers a trainable variable drawn uniformly from `lo..up`.
    pub fn uniform(&self, store: &mut VarStore, name: &str, dims: &Vec<i64>, lo: i64, up: i64)
        -> (r: Tensor)
        requires
            no_sep(name@),
            dims_ok(dims@),
            lo < up,
            old(store)@.wf(),
            self@.device == old(store)@.device,
        ensures
            final(store)@.wf(),
            registered(old(store)@, final(store)@, self@.segments, name@, r@, true),
            r@.wf(),
            r@.shape == dims@,
            r@.kind == Kind::Float,
            r@.device == old(store)@.device,
            r@.requires_grad == true,
            forall|t: int| 0 <= t < r@.data.len() ==> lo <= #[trigger] r@.data[t] < up,
    {
        self.var(store, name, dims, Init::Uniform { lo, up })
    }

    /// Registers a trainable variable drawn with the Kaiming-uniform
    /// heuristic bound for the shape's fan-in.
    pub fn kaiming_uniform(&self, store: &mut VarStore, name: &str, dims: &Vec<i64>) -> (r:
        Tensor)
        requires
            no_sep(name@),
            dims_ok(dims@),
            init_ok(Init::KaimingUniform, dims@),
            old(store)@.wf(),
            self@.device == old(store)@.device,
        ensures
            final(store)@.wf(),
            registered(old(store)@, final(store)@, self@.segments, name@, r@, true),
            r@.wf(),
            r@.shape == dims@,
            r@.kind == Kind::Float,
            r@.device == old(store)@.device,
            r@.requires_grad == true,
            forall|t: int| 0 <= t < r@.data.len() ==> init_value_ok(
                Init::KaimingUniform,
                dims@,
                #[trigger] r@.data[t],
            ),
    {
        self.var(store, name, dims, Init::KaimingUniform)
    }

    /// Registers a trainable variable holding a copy of `t`'s elements, on
    /// the store's device.
    pub fn var_copy(&self, store: &mut VarStore, name: &str, t: &Tensor) -> (r: Tensor)
        requires
            no_sep(name@),
            t@.wf(),
            old(store)@.wf(),
            self@.device == old(store)@.device,
        ensures
            final(store)@.wf(),
            registered(old(store)@, final(store)@, self@.segments, name@, r@, true),
            r@.wf(),
            r@.shape == t@.shape,
            r@.data == t@.data,
            r@.kind == Kind::Float,
            r@.device == old(store)@.device,
            r@.requires_grad == true,
    {
        let dims = t.size();
        let vals = t.values();
        let fresh = Tensor::from_shape_values(&dims, vals, Kind::Float, self.device);
        self.add(store, name, fresh, true)
    }
}

impl VarStore {
    /// A snapshot of every registered variable's name and value, in
    /// registration order: the bulk blob the store serializes.
    pub fn save(&self) -> (r: Vec<(String, Tensor)>)
        ensures
            r@.len() == self@.vars.len(),
            forall|i: int| 0 <= i < r@.len() ==> (#[trigger] r@[i]).0@ == self@.vars[i].name
                && r@[i].1@ == self@.vars[i].tensor,
    {
        let n = self.entries.len();
        let mut out: Vec<(String, Tensor)> = Vec::new();
        let mut j: usize = 0;
        while j < n
            invariant
                n == self.entries@.len(),
                0 <= j <= n,
                out@.len() == j,
                forall|i: int| 0 <= i < j ==> (#[trigger] out@[i]).0@ == self@.vars[i].name
                    && out@[i].1@ == self@.vars[i].tensor,
            decreases n - j,
        {
            out.push((self.entries[j].name.clone(), self.entries[j].tensor.shallow_clone()));
            j += 1;
        }
        out
    }
}

impl VarStore {
    /// Restores every registered variable from a saved snapshot, strictly:
    /// each variable's name is looked up and its values are overwritten in
    /// place, without touching trainability or gradient bookkeeping.  The
    /// snapshot is validated first and the store is only written when the
    /// whole load can succeed, so a failed load leaves it untouched: the
    /// first registered variable that is absent fails with
    /// `MissingVariable`, one saved with a different element count fails
    /// with `ShapeMismatch`.
    pub fn load(&mut self, named: &Vec<(String, Tensor)>) -> (r: Result<(), StoreError>)
        requires
            old(self)@.wf(),
        ensures
            final(self)@.wf(),
            final(self)@.device == old(self)@.device,
            match r {
                Ok(()) => (forall|i: int|
                    0 <= i < old(self)@.vars.len() ==> var_loadable(
                        #[trigger] old(self)@.vars[i],
                        named@,
                    )) && final(self)@.vars == old(self)@.vars.map_values(
                    |v: VarModel| loaded_var(v, named@),
                ),
                Err(e) => final(self)@ == old(self)@ && exists|i: int|
                    #![trigger old(self)@.vars[i]]
                    {
                        &&& 0 <= i < old(self)@.vars.len()
                        &&& forall|p: int|
                            0 <= p < i ==> var_loadable(old(self)@.vars[p], named@)
                        &&& match e {
                            StoreError::MissingVariable(nm) => nm@ == old(self)@.vars[i].name
                                && spec_lookup(named@, old(self)@.vars[i].name) is None,
                            StoreError::ShapeMismatch(nm) => nm@ == old(self)@.vars[i].name && (
                            spec_lookup(named@, old(self)@.vars[i].name) matches Some(t)
                                && t.data.len() != old(self)@.vars[i].tensor.data.len()),
                        }
                    },
            },
    {
        let n = self.entries.len();
        let mut j: usize = 0;
        while j < n
            invariant
                old(self)@.wf(),
                n == self.entries@.len(),
                0 <= j <= n,
                *self == *old(self),
                forall|p: int| 0 <= p < j ==> var_loadable(#[trigger] old(self)@.vars[p], named@),
            decreases n - j,
        {
            match find_named(named, &self.entries[j].name) {
                None => {
                    proof {
                        assert(!var_loadable(old(self)@.vars[j as int], named@));
                    }
                    return Err(StoreError::MissingVariable(self.entries[j].name.clone()));
                },
                Some(k) => {
                    if named[k].1.numel() != self.entries[j].tensor.numel() {
                        proof {
                            assert(spec_lookup(named@, old(self)@.vars[j as int].name)
                                == Some(named@[k as int].1@));
                        }
                        return Err(StoreError::ShapeMismatch(self.entries[j].name.clone()));
                    }
                    proof {
                        assert(var_loadable(old(self)@.vars[j as int], named@));
                    }
                },
            }
            j += 1;
        }
        self.apply_snapshot(named);
        Ok(())
    }

    /// Restores every registered variable whose name the snapshot holds, and
    /// returns the names of those it does not, in registration order,
    /// leaving their values untouched.  A present name saved with a
    /// different element count still fails with `ShapeMismatch`, before
    /// anything is written.
    pub fn load_partial(&mut self, named: &Vec<(String, Tensor)>) -> (r: Result<
        Vec<String>,
        StoreError,
    >)
        requires
            old(self)@.wf(),
        ensures
            final(self)@.wf(),
            final(self)@.device == old(self)@.device,
            match r {
                Ok(missing) => {
                    &&& forall|i: int|
                        0 <= i < old(self)@.vars.len() ==> var_present_ok(
                            #[trigger] old(self)@.vars[i],
                            named@,
                        )
                    &&& final(self)@.vars == old(self)@.vars.map_values(
                        |v: VarModel| loaded_var(v, named@),
                    )
                    &&& missing@.map_values(|s: String| s@) == missing_names(
                        old(self)@.vars,
                        named@,
                    )
                },
                Err(e) => final(self)@ == old(self)@ && exists|i: int|
                    #![trigger old(self)@.vars[i]]
                    {
                        &&& 0 <= i < old(self)@.vars.len()
                        &&& forall|p: int|
                            0 <= p < i ==> var_present_ok(old(self)@.vars[p], named@)
                        &&& match e {
                            StoreError::MissingVariable(nm) => false,
                            StoreError::ShapeMismatch(nm) => nm@ == old(self)@.vars[i].name && (
                            spec_lookup(named@, old(self)@.vars[i].name) matches Some(t)
                                && t.data.len() != old(self)@.vars[i].tensor.data.len()),
                        }
                    },
            },
    {
        let n = self.entries.len();
        let mut j: usize = 0;
        while j < n
            invariant
                old(self)@.wf(),
                n == self.entries@.len(),
                0 <= j <= n,
                *self == *old(self),
                forall|p: int| 0 <= p < j ==> var_present_ok(
                    #[trigger] old(self)@.vars[p],
                    named@,
                ),
            decreases n - j,
        {
            match find_named(named, &self.entries[j].name) {
                None => {
                },
                Some(k) => {
                    if named[k].1.numel() != self.entries[j].tensor.numel() {
                        proof {
                            assert(spec_lookup(named@, old(self)@.vars[j as int].name)
                                == Some(named@[k as int].1@));
                        }
                        return Err(StoreError::ShapeMismatch(self.entries[j].name.clone()));
                    }
                },
            }
            proof {
                assert(var_present_ok(old(self)@.vars[j as int], named@));
            }
            j += 1;
        }
        // Collect the missing names before writing anything.
        let ghost vars = self@.vars;
        let mut missing: Vec<String> = Vec::new();
        proof {
            assert(vars.skip(0) =~= vars);
            assert(missing@.map_values(|s: String| s@) + missing_names(vars, named@)
                =~= missing_names(vars, named@));
        }
        let mut j2: usize = 0;
        while j2 < n
            invariant
                n == self.entries@.len(),
                vars == self@.vars,
                0 <= j2 <= n,
                missing@.map_values(|s: String| s@) + missing_names(vars.skip(j2 as int), named@)
                    == missing_names(vars, named@),
            decreases n - j2,
        {
            proof {
                assert(vars.skip(j2 as int)[0] == vars[j2 as int]);
                assert(vars.skip(j2 as int).skip(1) =~= vars.skip(j2 + 1));
            }
            match find_named(named, &self.entries[j2].name) {
                None => {
                    missing.push(self.entries[j2].name.clone());
                    proof {
                        assert(missing@.map_values(|s: String| s@) + missing_names(
                            vars.skip(j2 + 1),
                            named@,
                        ) =~= missing_names(vars, named@));
                    }
                },
                Some(k) => {
                    proof {
                        assert(missing@.map_values(|s: String| s@) + missing_names(
                            vars.skip(j2 + 1),
                            named@,
                        ) =~= missing_names(vars, named@));
                    }
                },
            }
            j2 += 1;
        }
        proof {
            assert(vars.skip(n as int) =~= Seq::<VarModel>::empty());
            assert(missing@.map_values(|s: String| s@) =~= missing_names(vars, named@));
        }
        self.apply_snapshot(named);
        Ok(missing)
    }

    /// Overwrites in place every variable whose name the snapshot holds with
    /// a compatible value; the rest stay untouched.
    fn apply_snapshot(&mut self, named: &Vec<(String, Tensor)>)
        requires
            old(self)@.wf(),
            forall|i: int| 0 <= i < old(self)@.vars.len() ==> var_present_ok(
                #[trigger] old(self)@.vars[i],
                named@,
            ),
        ensures
            final(self)@.wf(),
            final(self)@.device == old(self)@.device,
            final(self)@.vars == old(self)@.vars.map_values(|v: VarModel| loaded_var(v, named@)),
    {
        let n = self.entries.len();
        let mut j: usize = 0;
        while j < n
            invariant
                old(self)@.wf(),
                forall|p: int| 0 <= p < old(self)@.vars.len() ==> var_present_ok(
                    #[trigger] old(self)@.vars[p],
                    named@,
                ),
                n == self.entries@.len(),
                self.entries@.len() == old(self).entries@.len(),
                self.device == old(self).device,
                0 <= j <= n,
                forall|p: int| 0 <= p < j ==> (#[trigger] self.entries@[p])@ == loaded_var(
                    old(self)@.vars[p],
                    named@,
                ),
                forall|p: int| j <= p < n ==> (#[trigger] self.entries@[p]) == old(
                    self,
                ).entries@[p],
            decreases n - j,
        {
            match find_named(named, &self.entries[j].name) {
                None => {
                    proof {
                        assert(loaded_var(old(self)@.vars[j as int], named@) == old(
                            self,
                        )@.vars[j as int]);
                    }
                },
                Some(k) => {
                    let nm = self.entries[j].name.clone();
                    let tr = self.entries[j].trainable;
                    let mut t = self.entries[j].tensor.shallow_clone();
                    proof {
                        assert(var_present_ok(old(self)@.vars[j as int], named@));
                        assert(spec_lookup(named@, old(self)@.vars[j as int].name) == Some(
                            named@[k as int].1@,
                        ));
                    }
                    t.copy_(&named[k].1);
                    self.entries[j] = Entry { name: nm, tensor: t, trainable: tr };
                    proof {
                        assert(self.entries@[j as int]@ == loaded_var(
                            old(self)@.vars[j as int],
                            named@,
                        ));
                    }
                },
            }
            j += 1;
        }
        proof {
            assert(self@.vars =~= old(self)@.vars.map_values(|v: VarModel| loaded_var(v, named@)));
            assert forall|i: int, q: int|
                #![trigger self@.vars[i].name, self@.vars[q].name]
                0 <= i < q < self@.vars.len() implies self@.vars[i].name != self@.vars[q].name by {
                assert(old(self)@.vars[i].name != old(self)@.vars[q].name);
            }
        }
    }

    /// A brand-new store on `device` holding a deep copy of every variable:
    /// values, trainability flags and gradient bookkeeping.
    pub fn copy(&self, device: Device) -> (r: VarStore)
        requires
            self@.wf(),
        ensures
            r@.wf(),
            r@.device == device,
            r@.vars == self@.vars.map_values(
                |v: VarModel| (VarModel { tensor: v.tensor.on_device(device), ..v }),
            ),
    {
        let n = self.entries.len();
        let mut entries: Vec<Entry> = Vec::new();
        let mut j: usize = 0;
        while j < n
            invariant
                self@.wf(),
                n == self.entries@.len(),
                0 <= j <= n,
                entries@.len() == j,
                forall|p: int| 0 <= p < j ==> (#[trigger] entries@[p])@ == (VarModel {
                    tensor: self@.vars[p].tensor.on_device(device),
                    ..self@.vars[p]
                }),
            decreases n - j,
        {
            let e = Entry {
                name: self.entries[j].name.clone(),
                tensor: self.entries[j].tensor.to_device(device),
                trainable: self.entries[j].trainable,
            };
            entries.push(e);
            j += 1;
        }
        let r = VarStore { entries, device, seed: self.seed };
        proof {
            assert(r@.vars =~= self@.vars.map_values(
                |v: VarModel| (VarModel { tensor: v.tensor.on_device(device), ..v }),
            ));
            assert forall|i: int, q: int|
                #![trigger r@.vars[i].name, r@.vars[q].name]
                0 <= i < q < r@.vars.len() implies r@.vars[i].name != r@.vars[q].name by {
                assert(self@.vars[i].name != self@.vars[q].name);
            }
        }
        r
    }
}

/// A registered variable does not block a partial load: if its name is in
/// the snapshot, the saved value has as many elements.
pub open spec fn var_present_ok(v: VarModel, named: Seq<(String, Tensor)>) -> bool {
    match spec_lookup(named, v.name) {
        Some(t) => t.data.len() == v.tensor.data.len(),
        None => true,
    }
}

/// The variables of `svars` whose names `dst` does not hold, in order, as
/// deep copies on `dst`'s device: what `copy_to` appends to `dst`.
pub open spec fn absent_copies(svars: Seq<VarModel>, dst: StoreModel) -> Seq<VarModel>
    decreases svars.len(),
{
    if svars.len() == 0 {
        Seq::empty()
    } else if dst.contains_name(svars[0].name) {
        absent_copies(svars.skip(1), dst)
    } else {
        seq![
            (VarModel { tensor: svars[0].tensor.on_device(dst.device), ..svars[0] }),
        ] + absent_copies(svars.skip(1), dst)
    }
}

proof fn lemma_absent_copies_props(svars: Seq<VarModel>, dst: StoreModel)
    requires
        forall|i: int, j: int|
            #![trigger svars[i].name, svars[j].name]
            0 <= i < j < svars.len() ==> svars[i].name != svars[j].name,
    ensures
        forall|q: int|
            #![trigger absent_copies(svars, dst)[q]]
            0 <= q < absent_copies(svars, dst).len() ==> exists|p: int|
                #![trigger svars[p]]
                0 <= p < svars.len() && absent_copies(svars, dst)[q] == (VarModel {
                    tensor: svars[p].tensor.on_device(dst.device),
                    ..svars[p]
                }),
        forall|q: int|
            0 <= q < absent_copies(svars, dst).len() ==> !dst.contains_name(
                (#[trigger] absent_copies(svars, dst)[q]).name,
            ),
        forall|q1: int, q2: int|
            #![trigger absent_copies(svars, dst)[q1].name, absent_copies(svars, dst)[q2].name]
            0 <= q1 < q2 < absent_copies(svars, dst).len() ==> absent_copies(svars, dst)[q1].name
                != absent_copies(svars, dst)[q2].name,
    decreases svars.len(),
{
    if svars.len() > 0 {
        let rest = svars.skip(1);
        assert forall|i: int, j: int|
            #![trigger rest[i].name, rest[j].name]
            0 <= i < j < rest.len() implies rest[i].name != rest[j].name by {
            assert(rest[i] == svars[i + 1]);
            assert(rest[j] == svars[j + 1]);
            assert(svars[i + 1].name != svars[j + 1].name);
        }
        lemma_absent_copies_props(rest, dst);
        let a = absent_copies(svars, dst);
        let ar = absent_copies(rest, dst);
        if dst.contains_name(svars[0].name) {
            assert forall|q: int| #![trigger a[q]] 0 <= q < a.len() implies exists|p: int|
                #![trigger svars[p]]
                0 <= p < svars.len() && a[q] == (VarModel {
                    tensor: svars[p].tensor.on_device(dst.device),
                    ..svars[p]
                }) by {
                let pr = choose|p: int|
                    #![trigger rest[p]]
                    0 <= p < rest.len() && ar[q] == (VarModel {
                        tensor: rest[p].tensor.on_device(dst.device),
                        ..rest[p]
                    });
                assert(rest[pr] == svars[pr + 1]);
                assert(a[q] == (VarModel {
                    tensor: svars[pr + 1].tensor.on_device(dst.device),
                    ..svars[pr + 1]
                }));
            }
        } else {
            let head = VarModel { tensor: svars[0].tensor.on_device(dst.device), ..svars[0] };
            assert(a == seq![head] + ar);
            assert forall|q: int| #![trigger a[q]] 0 <= q < a.len() implies exists|p: int|
                #![trigger svars[p]]
                0 <= p < svars.len() && a[q] == (VarModel {
                    tensor: svars[p].tensor.on_device(dst.device),
                    ..svars[p]
                }) by {
                if q == 0 {
                    assert(a[0] == head);
                    assert(0 < svars.len() && a[0] == (VarModel {
                        tensor: svars[0].tensor.on_device(dst.device),
                        ..svars[0]
                    }));
                } else {
                    assert(a[q] == ar[q - 1]);
                    let pr = choose|p: int|
                        #![trigger rest[p]]
                        0 <= p < rest.len() && ar[q - 1] == (VarModel {
                            tensor: rest[p].tensor.on_device(dst.device),
                            ..rest[p]
                        });
                    assert(rest[pr] == svars[pr + 1]);
                    assert(a[q] == (VarModel {
                        tensor: svars[pr + 1].tensor.on_device(dst.device),
                        ..svars[pr + 1]
                    }));
                }
            }
            assert forall|q1: int, q2: int|
                #![trigger a[q1].name, a[q2].name]
                0 <= q1 < q2 < a.len() implies a[q1].name != a[q2].name by {
                if q1 == 0 {
                    assert(a[q2] == ar[q2 - 1]);
                    let pr = choose|p: int|
                        #![trigger rest[p]]
                        0 <= p < rest.len() && ar[q2 - 1] == (VarModel {
                            tensor: rest[p].tensor.on_device(dst.device),
                            ..rest[p]
                        });
                    assert(rest[pr] == svars[pr + 1]);
                    assert(svars[0].name != svars[pr + 1].name);
                } else {
                    assert(a[q1] == ar[q1 - 1] && a[q2] == ar[q2 - 1]);
                    assert(ar[q1 - 1].name != ar[q2 - 1].name);
                }
            }
        }
    }
}

/// The position of the first of the first `limit` entries carrying `name`.
fn find_entry_upto(entries: &Vec<Entry>, name: &String, limit: usize) -> (r: Option<usize>)
    requires
        limit <= entries@.len(),
    ensures
        match r {
            Some(i) => i < limit && entries@[i as int]@.name == name@,
            None => forall|p: int| 0 <= p < limit ==> (#[trigger] entries@[p])@.name != name@,
        },
{
    let mut j: usize = 0;
    while j < limit
        invariant
            limit <= entries@.len(),
            0 <= j <= limit,
            forall|p: int| 0 <= p < j ==> (#[trigger] entries@[p])@.name != name@,
        decreases limit - j,
    {
        if entries[j].name.eq(name) {
            return Some(j);
        }
        j += 1;
    }
    None
}

impl VarStore {
    /// Merges this store's variables into `other`: a variable whose name
    /// `other` holds has its value and trainability flag overwritten in
    /// place; the rest are appended as deep copies on `other`'s device, in
    /// registration order.  Variables present only in `other` are left
    /// untouched.
    #[verifier::rlimit(60)]
    pub fn copy_to(&self, other: &mut VarStore)
        requires
            self@.wf(),
            old(other)@.wf(),
            forall|i: int, j: int|
                #![trigger self@.vars[i].name, old(other)@.vars[j].name]
                0 <= i < self@.vars.len() && 0 <= j < old(other)@.vars.len() && self@.vars[i].name
                    == old(other)@.vars[j].name ==> self@.vars[i].tensor.data.len() == old(
                    other,
                )@.vars[j].tensor.data.len(),
        ensures
            final(other)@.wf(),
            final(other)@.device == old(other)@.device,
            final(other)@.vars.len() == old(other)@.vars.len() + absent_copies(
                self@.vars,
                old(other)@,
            ).len(),
            forall|q: int|
                0 <= q < old(other)@.vars.len() && !self@.contains_name(
                    (#[trigger] old(other)@.vars[q]).name,
                ) ==> final(other)@.vars[q] == old(other)@.vars[q],
            forall|p: int, q: int|
                #![trigger self@.vars[p].name, old(other)@.vars[q].name]
                0 <= p < self@.vars.len() && 0 <= q < old(other)@.vars.len() && self@.vars[p].name
                    == old(other)@.vars[q].name ==> final(other)@.vars[q] == (VarModel {
                    tensor: old(other)@.vars[q].tensor.with_data(self@.vars[p].tensor.data),
                    trainable: self@.vars[p].trainable,
                    ..old(other)@.vars[q]
                }),
            final(other)@.vars.skip(old(other)@.vars.len() as int) == absent_copies(
                self@.vars,
                old(other)@,
            ),
    {
        let n = self.entries.len();
        let old_len = other.entries.len();
        let ghost svars = self@.vars;
        let ghost dst = old(other)@;
        let mut i: usize = 0;
        proof {
            assert(svars.skip(0) =~= svars);
            assert(other@.vars.skip(old_len as int) =~= Seq::<VarModel>::empty());
        }
        while i < n
            invariant
                self@.wf(),
                dst.wf(),
                svars == self@.vars,
                dst == old(other)@,
                n == self.entries@.len(),
                old_len == dst.vars.len(),
                forall|p: int, q: int|
                    #![trigger svars[p].name, dst.vars[q].name]
                    0 <= p < svars.len() && 0 <= q < dst.vars.len() && svars[p].name
                        == dst.vars[q].name ==> svars[p].tensor.data.len()
                        == dst.vars[q].tensor.data.len(),
                0 <= i <= n,
                other.device == old(other).device,
                other.entries@.len() >= old_len,
                forall|q: int| 0 <= q < old_len ==> (#[trigger] other.entries@[q])@.name
                    == dst.vars[q].name,
                forall|q: int|
                    0 <= q < old_len && (forall|p: int|
                        0 <= p < i ==> (#[trigger] svars[p]).name != dst.vars[q].name) ==> (
                    #[trigger] other.entries@[q])@ == dst.vars[q],
                forall|p: int, q: int|
                    #![trigger svars[p].name, dst.vars[q].name]
                    0 <= p < i && 0 <= q < old_len && svars[p].name == dst.vars[q].name ==> (
                    other.entries@[q])@ == (VarModel {
                        tensor: dst.vars[q].tensor.with_data(svars[p].tensor.data),
                        trainable: svars[p].trainable,
                        ..dst.vars[q]
                    }),
                absent_copies(svars, dst) == other@.vars.skip(old_len as int) + absent_copies(
                    svars.skip(i as int),
                    dst,
                ),
            decreases n - i,
        {
            proof {
                assert(svars.skip(i as int)[0] == svars[i as int]);
                assert(svars.skip(i as int).skip(1) =~= svars.skip(i + 1));
            }
            match find_entry_upto(&other.entries, &self.entries[i].name, old_len) {
                Some(q) => {
                    proof {
                        assert(dst.vars[q as int].name == svars[i as int].name);
                        assert(dst.contains_name(svars[i as int].name));
                        assert(svars[i as int].tensor.data.len()
                            == dst.vars[q as int].tensor.data.len());
                        assert((other.entries@[q as int])@ == dst.vars[q as int]) by {
                            assert forall|p: int| 0 <= p < i implies (#[trigger] svars[p]).name
                                != dst.vars[q as int].name by {
                                if svars[p].name == dst.vars[q as int].name {
                                    assert(svars[p].name == svars[i as int].name);
                                }
                            }
                        }
                    }
                    let nm = other.entries[q].name.clone();
                    let mut t = other.entries[q].tensor.shallow_clone();
                    t.copy_(&self.entries[i].tensor);
                    let tr = self.entries[i].trainable;
                    let ghost before = other@.vars;
                    other.entries[q] = Entry { name: nm, tensor: t, trainable: tr };
                    proof {
                        assert(other@.vars =~= before.update(
                            q as int,
                            (VarModel {
                                tensor: dst.vars[q as int].tensor.with_data(
                                    svars[i as int].tensor.data,
                                ),
                                trainable: svars[i as int].trainable,
                                ..dst.vars[q as int]
                            }),
                        ));
                        assert(other@.vars.skip(old_len as int) =~= before.skip(old_len as int));
                        assert forall|p: int, q2: int|
                            #![trigger svars[p].name, dst.vars[q2].name]
                            0 <= p < i + 1 && 0 <= q2 < old_len && svars[p].name
                                == dst.vars[q2].name implies (other.entries@[q2])@ == (VarModel {
                                tensor: dst.vars[q2].tensor.with_data(svars[p].tensor.data),
                                trainable: svars[p].trainable,
                                ..dst.vars[q2]
                            }) by {
                            if q2 != q {
                                assert((other.entries@[q2])@ == before[q2]);
                            } else {
                                if p != i {
                                    assert(svars[p].name == svars[i as int].name);
                                    assert(false);
                                }
                            }
                        }
                    }
                },
                None => {
                    proof {
                        assert forall|q: int| 0 <= q < dst.vars.len() implies (
                        #[trigger] dst.vars[q]).name != svars[i as int].name by {
                            assert(other.entries@[q]@.name == dst.vars[q].name);
                        }
                        assert(!dst.contains_name(svars[i as int].name));
                    }
                    let e = Entry {
                        name: self.entries[i].name.clone(),
                        tensor: self.entries[i].tensor.to_device(other.device),
                        trainable: self.entries[i].trainable,
                    };
                    let ghost before = other@.vars;
                    other.entries.push(e);
                    proof {
                        let ghost copied = VarModel {
                            tensor: svars[i as int].tensor.on_device(dst.device),
                            ..svars[i as int]
                        };
                        assert(other@.vars =~= before.push(copied));
                        assert(other@.vars.skip(old_len as int) =~= before.skip(old_len as int)
                            + seq![copied]);
                        assert(absent_copies(svars.skip(i as int), dst) == seq![copied]
                            + absent_copies(svars.skip(i + 1), dst));
                        assert(absent_copies(svars, dst) == (before.skip(old_len as int)
                            + seq![copied]) + absent_copies(svars.skip(i + 1), dst)) by {
                            assert(before.skip(old_len as int) + (seq![copied] + absent_copies(
                                svars.skip(i + 1),
                                dst,
                            )) =~= (before.skip(old_len as int) + seq![copied]) + absent_copies(
                                svars.skip(i + 1),
                                dst,
                            ));
                        }
                    }
                },
            }
            i += 1;
        }
        proof {
            assert(svars.skip(n as int) =~= Seq::<VarModel>::empty());
            assert(absent_copies(Seq::<VarModel>::empty(), dst) == Seq::<VarModel>::empty());
            assert(absent_copies(svars, dst) =~= other@.vars.skip(old_len as int));
            assert(other@.vars.len() == old_len + absent_copies(svars, dst).len());
            assert forall|q: int|
                0 <= q < old_len && (forall|p: int|
                    0 <= p < svars.len() ==> (#[trigger] svars[p]).name != dst.vars[q].name)
                implies (#[trigger] other@.vars[q]) == dst.vars[q] by {
                assert((other.entries@[q])@ == dst.vars[q]);
            }
            lemma_merged_wf(svars, dst, other@.vars);
        }
    }
}

/// The registry `copy_to` produces is well-formed: the overwritten half
/// keeps the destination's pairwise-distinct names, the appended half avoids
/// them and repeats none, and every tensor is well-formed on the
/// destination's device.
proof fn lemma_merged_wf(svars: Seq<VarModel>, dst: StoreModel, merged: Seq<VarModel>)
    requires
        dst.wf(),
        forall|i: int, j: int|
            #![trigger svars[i].name, svars[j].name]
            0 <= i < j < svars.len() ==> svars[i].name != svars[j].name,
        forall|i: int| 0 <= i < svars.len() ==> (#[trigger] svars[i]).tensor.wf(),
        forall|p: int, q: int|
            #![trigger svars[p].name, dst.vars[q].name]
            0 <= p < svars.len() && 0 <= q < dst.vars.len() && svars[p].name == dst.vars[q].name
                ==> svars[p].tensor.data.len() == dst.vars[q].tensor.data.len(),
        merged.len() == dst.vars.len() + absent_copies(svars, dst).len(),
        forall|q: int| 0 <= q < dst.vars.len() ==> (#[trigger] merged[q]).name
            == dst.vars[q].name,
        forall|q: int|
            0 <= q < dst.vars.len() && (forall|p: int|
                0 <= p < svars.len() ==> (#[trigger] svars[p]).name != dst.vars[q].name) ==> (
            #[trigger] merged[q]) == dst.vars[q],
        forall|p: int, q: int|
            #![trigger svars[p].name, dst.vars[q].name]
            0 <= p < svars.len() && 0 <= q < dst.vars.len() && svars[p].name == dst.vars[q].name
                ==> merged[q] == (VarModel {
                tensor: dst.vars[q].tensor.with_data(svars[p].tensor.data),
                trainable: svars[p].trainable,
                ..dst.vars[q]
            }),
        merged.skip(dst.vars.len() as int) == absent_copies(svars, dst),
    ensures
        (StoreModel { vars: merged, device: dst.device }).wf(),
{
    let old_len = dst.vars.len() as int;
    let a = absent_copies(svars, dst);
    lemma_absent_copies_props(svars, dst);
    assert forall|q: int| old_len <= q < merged.len() implies (#[trigger] merged[q]) == a[q
        - old_len] by {
        assert(merged.skip(old_len)[q - old_len] == merged[q]);
    }
    assert forall|q: int| 0 <= q < merged.len() implies (#[trigger] merged[q]).tensor.wf()
        && merged[q].tensor.device == dst.device by {
        if q < old_len {
            if forall|p: int| 0 <= p < svars.len() ==> (#[trigger] svars[p]).name
                != dst.vars[q].name {
                assert(merged[q] == dst.vars[q]);
                assert(dst.vars[q].tensor.wf());
            } else {
                let p = choose|p: int|
                    0 <= p < svars.len() && (#[trigger] svars[p]).name == dst.vars[q].name;
                assert(merged[q] == (VarModel {
                    tensor: dst.vars[q].tensor.with_data(svars[p].tensor.data),
                    trainable: svars[p].trainable,
                    ..dst.vars[q]
                }));
                assert(svars[p].tensor.wf());
                assert(dst.vars[q].tensor.wf());
            }
        } else {
            assert(merged[q] == a[q - old_len]);
            let p = choose|p: int|
                #![trigger svars[p]]
                0 <= p < svars.len() && a[q - old_len] == (VarModel {
                    tensor: svars[p].tensor.on_device(dst.device),
                    ..svars[p]
                });
            assert(svars[p].tensor.wf());
        }
    }
    assert forall|q1: int, q2: int|
        #![trigger merged[q1].name, merged[q2].name]
        0 <= q1 < q2 < merged.len() implies merged[q1].name != merged[q2].name by {
        if q1 < old_len && q2 < old_len {
            assert(dst.vars[q1].name != dst.vars[q2].name);
        } else if q1 < old_len && q2 >= old_len {
            assert(merged[q2] == a[q2 - old_len]);
            assert(!dst.contains_name(a[q2 - old_len].name));
            if merged[q1].name == a[q2 - old_len].name {
                assert(dst.vars[q1].name == a[q2 - old_len].name);
                assert(dst.contains_name(a[q2 - old_len].name));
            }
        } else {
            assert(merged[q1] == a[q1 - old_len] && merged[q2] == a[q2 - old_len]);
            assert(a[q1 - old_len].name != a[q2 - old_len].name);
        }
    }
}

/// Saving a store and loading the snapshot into a second store that has the
/// same registered names with the same element counts restores, for every
/// variable of the second store, the first store's saved values — while the
/// load contract keeps every name, trainability flag and gradient state of
/// the second store as they were.
pub proof fn lemma_save_load_round_trip(
    src: StoreModel,
    dst: StoreModel,
    saved: Seq<(String, Tensor)>,
)
    requires
        src.wf(),
        dst.wf(),
        saved.len() == src.vars.len(),
        forall|i: int|
            0 <= i < saved.len() ==> (#[trigger] saved[i]).0@ == src.vars[i].name && saved[i].1@
                == src.vars[i].tensor,
        forall|j: int|
            0 <= j < dst.vars.len() ==> src.contains_name((#[trigger] dst.vars[j]).name),
        forall|i: int, j: int|
            #![trigger src.vars[i].name, dst.vars[j].name]
            0 <= i < src.vars.len() && 0 <= j < dst.vars.len() && src.vars[i].name
                == dst.vars[j].name ==> src.vars[i].tensor.data.len()
                == dst.vars[j].tensor.data.len(),
    ensures
        forall|j: int| 0 <= j < dst.vars.len() ==> var_loadable(#[trigger] dst.vars[j], saved),
        forall|j: int|
            0 <= j < dst.vars.len() ==> exists|i: int|
                #![auto]
                0 <= i < src.vars.len() && src.vars[i].name == (#[trigger] dst.vars[j]).name
                    && loaded_var(dst.vars[j], saved).tensor.data == src.vars[i].tensor.data,
        forall|j: int|
            0 <= j < dst.vars.len() ==> loaded_var(#[trigger] dst.vars[j], saved).trainable
                == dst.vars[j].trainable && loaded_var(dst.vars[j], saved).tensor.requires_grad
                == dst.vars[j].tensor.requires_grad && loaded_var(dst.vars[j], saved).name
                == dst.vars[j].name,
{
    assert forall|j: int| 0 <= j < dst.vars.len() implies var_loadable(#[trigger] dst.vars[j], saved)
        && exists|i: int|
        #![auto]
        0 <= i < src.vars.len() && src.vars[i].name == dst.vars[j].name && loaded_var(
            dst.vars[j],
            saved,
        ).tensor.data == src.vars[i].tensor.data by {
        let i = choose|i: int|
            0 <= i < src.vars.len() && (#[trigger] src.vars[i]).name == dst.vars[j].name;
        let fi = choose|p: int|
            0 <= p < src.vars.len() && (#[trigger] src.vars[p]).name == dst.vars[j].name
                && forall|q: int|
                0 <= q < p ==> (#[trigger] src.vars[q]).name != dst.vars[j].name;
        assert(exists|p: int|
            0 <= p < src.vars.len() && (#[trigger] src.vars[p]).name == dst.vars[j].name
                && forall|q: int|
                0 <= q < p ==> (#[trigger] src.vars[q]).name != dst.vars[j].name) by {
            assert(0 <= i < src.vars.len() && src.vars[i].name == dst.vars[j].name && forall|
                q: int,
            |
                0 <= q < i ==> (#[trigger] src.vars[q]).name != dst.vars[j].name) by {
                assert forall|q: int| 0 <= q < i implies (#[trigger] src.vars[q]).name
                    != dst.vars[j].name by {
                    assert(src.vars[q].name != src.vars[i].name);
                }
            }
        }
        assert forall|q: int| 0 <= q < fi implies (#[trigger] saved[q]).0@ != dst.vars[j].name by {
            assert(src.vars[q].name != dst.vars[j].name);
        }
        lemma_spec_lookup_at(saved, dst.vars[j].name, fi);
        assert(spec_lookup(saved, dst.vars[j].name) == Some(src.vars[fi].tensor));
        assert(src.vars[fi].tensor.data.len() == dst.vars[j].tensor.data.len());
    }
}

/// Freezing (or unfreezing) twice is the same as doing it once.
pub proof fn lemma_freeze_idempotent(vars: Seq<VarModel>, grad: bool)
    ensures
        frozen(frozen(vars, grad), grad) == frozen(vars, grad),
{
    assert(frozen(frozen(vars, grad), grad) =~= frozen(vars, grad));
}

/// Freezing and then unfreezing is an identity on every trainability flag,
/// and restores the prior gradient-tracking state of every variable, on any
/// store whose trainable variables were tracking gradients — as they do from
/// registration on, until a freeze with no matching unfreeze.
pub proof fn lemma_freeze_unfreeze_identity(s: StoreModel, f: StoreModel, u: StoreModel)
    requires
        f.vars == frozen(s.vars, false),
        f.device == s.device,
        u.vars == frozen(f.vars, true),
        u.device == f.device,
        forall|i: int|
            0 <= i < s.vars.len() ==> ((#[trigger] s.vars[i]).trainable
                ==> s.vars[i].tensor.requires_grad),
    ensures
        u == s,
{
    assert forall|i: int| 0 <= i < s.vars.len() implies u.vars[i] == s.vars[i] by {
        assert(f.vars[i] == freeze_step(s.vars[i], false));
        assert(u.vars[i] == freeze_step(f.vars[i], true));
    }
    assert(u.vars =~= s.vars);
}

} // verus!
