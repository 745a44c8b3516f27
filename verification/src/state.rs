//! The memory a generation session carries from one decode step to the
//! next: for each attention layer, how many tokens it has consumed and the
//! keys and values it has seen.
//!
//! A `ModelState` belongs to one session. It is handed to every `forward`
//! call by mutable reference, so two calls can never run on it at once. To
//! keep a state as a reusable snapshot, take a `deep_clone` of it first: a
//! plain tensor handle shares its storage with the tensor it was cloned from.

use vstd::prelude::*;
use candle_core::{Device, Tensor};
use crate::error::{backend, AttentionError};
use crate::tensor::{copy, on_device, tensor_bits, tensor_dims, tensor_dtype, to_device};

verus! {

/// What one attention layer remembers.
///
/// The caches have shape `[batch, position, heads, head_dim]`. They grow by
/// concatenation, one `forward` call at a time, and never shrink. While
/// `position` is zero the caches are not looked at.
#[derive(Debug)]
pub struct LayerState {
    /// The number of tokens consumed so far.
    pub position: usize,
    /// The keys of all tokens consumed so far.
    pub key_cache: Option<Tensor>,
    /// The values of all tokens consumed so far.
    pub value_cache: Option<Tensor>,
}

impl LayerState {
    /// The state of a layer that has not consumed anything yet.
    pub open spec fn fresh() -> LayerState {
        LayerState { position: 0, key_cache: None, value_cache: None }
    }

    /// Once tokens have been consumed, both caches are there, have the same
    /// shape, and their time axis is as long as the position.
    pub open spec fn consistent(&self) -> bool {
        self.position >= 1 ==> {
            &&& self.key_cache matches Some(keys)
            &&& self.value_cache matches Some(values)
            &&& tensor_dims(keys).len() == 4
            &&& tensor_dims(keys)[1] == self.position
            &&& tensor_dims(values) == tensor_dims(keys)
        }
    }

    /// `other` holds what `self` holds: the same position, and caches of the
    /// same shape and element type with the same elements.
    pub open spec fn same_contents(&self, other: &LayerState) -> bool {
        &&& other.position == self.position
        &&& same_cache(self.key_cache, other.key_cache)
        &&& same_cache(self.value_cache, other.value_cache)
    }

    /// Whatever caches the state has live on `device`.
    pub open spec fn lives_on(&self, device: Device) -> bool {
        &&& self.key_cache matches Some(keys) ==> on_device(keys, device)
        &&& self.value_cache matches Some(values) ==> on_device(values, device)
    }

    /// The state has no cache at all, so that copying it moves no tensor.
    pub open spec fn without_caches(&self) -> bool {
        self.key_cache is None && self.value_cache is None
    }

    /// The state of a layer that has not consumed anything yet.
    pub fn new() -> (layer: LayerState)
        ensures
            layer == LayerState::fresh(),
            layer.consistent(),
    {
        LayerState { position: 0, key_cache: None, value_cache: None }
    }

    /// Checks what a state must satisfy before it is handed to `forward`,
    /// for instance after it has been read back from a file.
    pub fn is_consistent(&self) -> (ok: bool)
        ensures
            ok == self.consistent(),
    {
        if self.position == 0 {
            return true;
        }
        match (&self.key_cache, &self.value_cache) {
            (Some(keys), Some(values)) => {
                let key_dims = crate::tensor::dims(keys);
                let value_dims = crate::tensor::dims(values);
                if key_dims.len() != 4 || value_dims.len() != 4 {
                    return false;
                }
                assert(key_dims@ == value_dims@ <==> key_dims@ =~= value_dims@);
                key_dims[1] == self.position && key_dims[0] == value_dims[0] && key_dims[1]
                    == value_dims[1] && key_dims[2] == value_dims[2] && key_dims[3]
                    == value_dims[3]
            },
            _ => false,
        }
    }

    /// A copy whose caches live on `device` and share no storage with those
    /// of `self`. A state without caches is always copied; where there are
    /// caches, the backend decides whether they can be.
    pub fn deep_clone(&self, device: &Device) -> (r: Result<LayerState, AttentionError>)
        ensures
            match r {
                Ok(twin) => self.same_contents(&twin) && twin.lives_on(*device),
                Err(e) => e is Backend,
            },
            self.without_caches() ==> r is Ok,
    {
        let key_cache = match &self.key_cache {
            Some(keys) => Some(detached(keys, device)?),
            None => None,
        };
        let value_cache = match &self.value_cache {
            Some(values) => Some(detached(values, device)?),
            None => None,
        };
        Ok(LayerState { position: self.position, key_cache, value_cache })
    }
}

/// Two caches are both absent, or have the same shape, the same element type
/// and the same elements.
pub open spec fn same_cache(mine: Option<Tensor>, theirs: Option<Tensor>) -> bool {
    match (mine, theirs) {
        (Some(a), Some(b)) => tensor_dims(b) == tensor_dims(a) && tensor_dtype(b) == tensor_dtype(a)
            && tensor_bits(b) == tensor_bits(a),
        (None, None) => true,
        _ => false,
    }
}

/// Moves a tensor to `device` and gives it storage of its own.
fn detached(t: &Tensor, device: &Device) -> (r: Result<Tensor, AttentionError>)
    ensures
        match r {
            Ok(twin) => same_cache(Some(*t), Some(twin)) && on_device(twin, *device),
            Err(e) => e is Backend,
        },
{
    let moved = backend(to_device(t, device))?;
    backend(copy(&moved))
}

/// A layer's state under the layer's name.
#[derive(Debug)]
struct LayerEntry {
    name: String,
    state: LayerState,
}

/// The states of all layers of a model, by layer name.
///
/// The entries are kept in the order in which the layers first appeared.
/// A name is looked up from the front, and `insert` replaces where it finds.
#[derive(Debug)]
pub struct ModelState {
    entries: Vec<LayerEntry>,
}

impl View for ModelState {
    type V = Map<Seq<char>, LayerState>;

    /// The state of each layer that has one, by the layer's name.
    closed spec fn view(&self) -> Map<Seq<char>, LayerState> {
        Map::new(
            |name: Seq<char>| self.holds(name),
            |name: Seq<char>| self.entries@[self.slot(name)].state,
        )
    }
}

impl ModelState {
    /// Entry `i` is the first that carries this name.
    spec fn first_at(&self, name: Seq<char>, i: int) -> bool {
        &&& 0 <= i < self.entries@.len()
        &&& self.entries@[i].name@ == name
        &&& forall|j: int| 0 <= j < i ==> self.entries@[j].name@ != name
    }

    /// Some entry carries this name.
    spec fn holds(&self, name: Seq<char>) -> bool {
        exists|i: int| self.first_at(name, i)
    }

    /// The index of the first entry that carries this name.
    spec fn slot(&self, name: Seq<char>) -> int {
        choose|i: int| self.first_at(name, i)
    }

    /// Where some entry carries a name, one of them is the first to do so.
    proof fn lemma_first_exists(&self, name: Seq<char>, at: int)
        requires
            0 <= at < self.entries@.len(),
            self.entries@[at].name@ == name,
        ensures
            self.holds(name),
            self.slot(name) <= at,
            self.first_at(name, self.slot(name)),
        decreases at,
    {
        if forall|j: int| 0 <= j < at ==> self.entries@[j].name@ != name {
            assert(self.first_at(name, at));
        } else {
            let earlier = choose|j: int| 0 <= j < at && self.entries@[j].name@ == name;
            self.lemma_first_exists(name, earlier);
        }
    }

    /// A state that knows no layer yet.
    pub fn new() -> (state: ModelState)
        ensures
            state@ == Map::<Seq<char>, LayerState>::empty(),
    {
        let state = ModelState { entries: Vec::new() };
        assert(state@ =~= Map::<Seq<char>, LayerState>::empty());
        state
    }

    /// Looks for the first entry that carries `name`.
    fn find(&self, name: &str) -> (found: Option<usize>)
        ensures
            match found {
                Some(i) => self.first_at(name@, i as int) && self.holds(name@) && self.slot(name@)
                    == i,
                None => !self.holds(name@),
            },
    {
        let wanted = name.to_owned();
        let mut i: usize = 0;
        while i < self.entries.len()
            invariant
                i <= self.entries@.len(),
                wanted@ == name@,
                forall|j: int| 0 <= j < i ==> self.entries@[j].name@ != name@,
            decreases self.entries@.len() - i,
        {
            if self.entries[i].name == wanted {
                assert(self.first_at(name@, i as int));
                return Some(i);
            }
            i += 1;
        }
        None
    }

    /// Whether the layer called `name` has a state.
    pub fn contains_key(&self, name: &str) -> (found: bool)
        ensures
            found == self@.contains_key(name@),
    {
        self.find(name).is_some()
    }

    /// The state of the layer called `name`, if it has one.
    pub fn get(&self, name: &str) -> (layer: Option<&LayerState>)
        ensures
            match layer {
                Some(state) => self@.contains_key(name@) && *state == self@[name@],
                None => !self@.contains_key(name@),
            },
    {
        match self.find(name) {
            Some(i) => Some(&self.entries[i].state),
            None => None,
        }
    }

    /// Sets the state of the layer called `name`, whether it had one or not.
    /// No other layer is touched.
    pub fn insert(&mut self, name: String, layer: LayerState)
        ensures
            final(self)@ == old(self)@.insert(name@, layer),
    {
        let ghost before = *self;
        match self.find(name.as_str()) {
            Some(i) => {
                let entry = LayerEntry { name, state: layer };
                self.entries.set(i, entry);
                proof {
                    assert(self.entries@ =~= before.entries@.update(i as int, entry));
                    assert forall|j: int| 0 <= j < self.entries@.len() implies (
                    #[trigger] self.entries@[j]).name@ == before.entries@[j].name@ by {}
                    assert forall|key: Seq<char>, at: int|
                        self.first_at(key, at) <==> before.first_at(key, at) by {
                        if self.first_at(key, at) {
                            assert forall|j: int| 0 <= j < at implies before.entries@[j].name@
                                != key by {
                                assert(self.entries@[j].name@ == before.entries@[j].name@);
                            }
                        }
                        if before.first_at(key, at) {
                            assert forall|j: int| 0 <= j < at implies self.entries@[j].name@
                                != key by {
                                assert(self.entries@[j].name@ == before.entries@[j].name@);
                            }
                        }
                    }
                    assert forall|key: Seq<char>| self.holds(key) <==> before.holds(key) by {
                        if before.holds(key) {
                            assert(self.first_at(key, before.slot(key)));
                        }
                        if self.holds(key) {
                            assert(before.first_at(key, self.slot(key)));
                        }
                    }
                    assert(self@ =~= before@.insert(entry.name@, entry.state));
                }
            },
            None => {
                let ghost count = self.entries@.len() as int;
                let entry = LayerEntry { name, state: layer };
                self.entries.push(entry);
                proof {
                    assert(self.entries@ =~= before.entries@.push(entry));
                    assert(!before.holds(entry.name@));
                    assert forall|j: int| 0 <= j < count implies self.entries@[j].name@
                        != entry.name@ by {
                        if before.entries@[j].name@ == entry.name@ {
                            before.lemma_first_exists(entry.name@, j);
                        }
                    }
                    assert(self.first_at(entry.name@, count));
                    assert forall|key: Seq<char>, at: int| key != entry.name@ implies (
                    self.first_at(key, at) <==> before.first_at(key, at)) by {
                        if self.first_at(key, at) {
                            assert forall|j: int| 0 <= j < at implies before.entries@[j].name@
                                != key by {
                                assert(self.entries@[j].name@ == before.entries@[j].name@);
                            }
                        }
                        if before.first_at(key, at) {
                            assert forall|j: int| 0 <= j < at implies self.entries@[j].name@
                                != key by {
                                assert(self.entries@[j].name@ == before.entries@[j].name@);
                            }
                        }
                    }
                    assert forall|key: Seq<char>| key != entry.name@ implies (self.holds(key)
                        <==> before.holds(key)) by {
                        if before.holds(key) {
                            assert(self.first_at(key, before.slot(key)));
                        }
                        if self.holds(key) {
                            assert(before.first_at(key, self.slot(key)));
                        }
                    }
                    assert(self@ =~= before@.insert(entry.name@, entry.state));
                }
            },
        }
    }

    /// Every layer's state is consistent.
    pub open spec fn consistent(&self) -> bool {
        forall|name: Seq<char>| #[trigger]
            self@.contains_key(name) ==> self@[name].consistent()
    }

    /// Checks what a state must satisfy before it is handed to `forward`,
    /// for instance after it has been read back from a file: that every
    /// layer's caches are as long as its position.
    pub fn is_consistent(&self) -> (ok: bool)
        ensures
            ok == self.consistent(),
    {
        let mut i: usize = 0;
        while i < self.entries.len()
            invariant
                i <= self.entries@.len(),
                forall|j: int, name: Seq<char>|
                    0 <= j < i && #[trigger] self.first_at(name, j)
                        ==> self.entries@[j].state.consistent(),
            decreases self.entries@.len() - i,
        {
            let first = match self.find(self.entries[i].name.as_str()) {
                Some(at) => at == i,
                None => false,
            };
            if first && !self.entries[i].state.is_consistent() {
                proof {
                    let name = self.entries@[i as int].name@;
                    assert(self@.contains_key(name) && self@[name] == self.entries@[i as int].state);
                }
                return false;
            }
            proof {
                assert forall|name: Seq<char>| #[trigger]
                    self.first_at(name, i as int) implies self.entries@[i as int].state.consistent() by {
                    assert(self.holds(name));
                    assert(self.first_at(name, self.slot(name)));
                }
            }
            i += 1;
        }
        proof {
            assert forall|name: Seq<char>| #[trigger]
                self@.contains_key(name) implies self@[name].consistent() by {
                assert(self.first_at(name, self.slot(name)));
            }
        }
        true
    }

    /// The names of the layers that have a state, each once, in the order
    /// in which the layers first appeared.
    pub fn names(&self) -> (names: Vec<String>)
        ensures
            forall|name: Seq<char>|
                self@.contains_key(name) <==> exists|i: int|
                    0 <= i < names@.len() && (#[trigger] names@[i])@ == name,
            forall|i: int, j: int|
                0 <= i < j < names@.len() ==> names@[i]@ != names@[j]@,
    {
        let mut names: Vec<String> = Vec::new();
        let ghost mut origin: Seq<int> = Seq::empty();
        let mut i: usize = 0;
        while i < self.entries.len()
            invariant
                i <= self.entries@.len(),
                origin.len() == names@.len(),
                forall|p: int|
                    0 <= p < names@.len() ==> 0 <= #[trigger] origin[p] < i && self.first_at(
                        names@[p]@,
                        origin[p],
                    ),
                forall|p: int, q: int| 0 <= p < q < names@.len() ==> origin[p] < origin[q],
                forall|j: int, name: Seq<char>|
                    0 <= j < i && #[trigger] self.first_at(name, j) ==> exists|p: int|
                        0 <= p < names@.len() && (#[trigger] names@[p])@ == name,
            decreases self.entries@.len() - i,
        {
            let first = match self.find(self.entries[i].name.as_str()) {
                Some(at) => at == i,
                None => false,
            };
            let ghost before = names@;
            if first {
                names.push(self.entries[i].name.clone());
                proof {
                    origin = origin.push(i as int);
                    assert forall|j: int, name: Seq<char>|
                        0 <= j < i + 1 && #[trigger] self.first_at(name, j) implies exists|p: int|
                        0 <= p < names@.len() && (#[trigger] names@[p])@ == name by {
                        if j < i {
                            let p = choose|p: int|
                                0 <= p < before.len() && (#[trigger] before[p])@ == name;
                            assert(names@[p]@ == name);
                        } else {
                            assert(names@[before.len() as int]@ == name);
                        }
                    }
                }
            } else {
                proof {
                    assert forall|name: Seq<char>| !#[trigger] self.first_at(name, i as int) by {
                        if self.first_at(name, i as int) {
                            assert(self.holds(name));
                            assert(self.first_at(name, self.slot(name)));
                        }
                    }
                }
            }
            i += 1;
        }
        proof {
            assert forall|name: Seq<char>|
                self@.contains_key(name) <==> exists|p: int|
                    0 <= p < names@.len() && (#[trigger] names@[p])@ == name by {
                if self@.contains_key(name) {
                    assert(self.first_at(name, self.slot(name)));
                }
                if exists|p: int| 0 <= p < names@.len() && (#[trigger] names@[p])@ == name {
                    let p = choose|p: int| 0 <= p < names@.len() && (#[trigger] names@[p])@ == name;
                    assert(self.first_at(name, origin[p]));
                }
            }
            assert forall|p: int, q: int| 0 <= p < q < names@.len() implies names@[p]@
                != names@[q]@ by {
                assert(self.first_at(names@[p]@, origin[p]));
                assert(self.first_at(names@[q]@, origin[q]));
            }
        }
        names
    }

    /// No layer has a cache, so that copying the state moves no tensor.
    pub open spec fn without_caches(&self) -> bool {
        forall|name: Seq<char>| #[trigger]
            self@.contains_key(name) ==> self@[name].without_caches()
    }

    /// A copy of the whole state whose caches live on `device` and share no
    /// storage with those of `self`: the same layers, each at the same
    /// position and with the same cache contents. A state without caches is
    /// always copied; where there are caches, the backend decides whether
    /// they can be.
    pub fn deep_clone(&self, device: &Device) -> (r: Result<ModelState, AttentionError>)
        ensures
            match r {
                Ok(twin) => {
                    &&& twin@.dom() == self@.dom()
                    &&& forall|name: Seq<char>| #[trigger]
                        self@.contains_key(name) ==> self@[name].same_contents(&twin@[name])
                            && twin@[name].lives_on(*device)
                },
                Err(e) => e is Backend,
            },
            self.without_caches() ==> r is Ok,
    {
        let mut entries: Vec<LayerEntry> = Vec::new();
        let mut i: usize = 0;
        proof {
            if self.without_caches() {
                assert forall|j: int, key: Seq<char>|
                    0 <= j < self.entries@.len() && #[trigger] self.first_at(
                        key,
                        j,
                    ) implies self.entries@[j].state.without_caches() by {
                    assert(self.first_at(key, self.slot(key)));
                    assert(self@.contains_key(key));
                }
            }
        }
        while i < self.entries.len()
            invariant
                i <= self.entries@.len(),
                entries@.len() == i,
                self.without_caches() ==> forall|j: int, key: Seq<char>|
                    0 <= j < self.entries@.len() && #[trigger] self.first_at(key, j)
                        ==> self.entries@[j].state.without_caches(),
                forall|j: int|
                    0 <= j < i ==> (#[trigger] entries@[j]).name@ == self.entries@[j].name@ && (
                    self.first_at(self.entries@[j].name@, j) ==> self.entries@[j].state.same_contents(
                        &entries@[j].state,
                    ) && entries@[j].state.lives_on(*device)),
            decreases self.entries@.len() - i,
        {
            let name = self.entries[i].name.clone();
            let first = match self.find(name.as_str()) {
                Some(at) => at == i,
                None => false,
            };
            let state = if first {
                self.entries[i].state.deep_clone(device)?
            } else {
                // An entry behind an earlier one of the same name is no part
                // of the state; an empty one keeps its place.
                LayerState::new()
            };
            entries.push(LayerEntry { name, state });
            i += 1;
        }
        let twin = ModelState { entries };
        proof {
            assert forall|key: Seq<char>, at: int|
                twin.first_at(key, at) <==> self.first_at(key, at) by {
                if twin.first_at(key, at) {
                    assert(twin.entries@[at].name@ == self.entries@[at].name@);
                    assert forall|j: int| 0 <= j < at implies self.entries@[j].name@ != key by {
                        assert(twin.entries@[j].name@ == self.entries@[j].name@);
                    }
                }
                if self.first_at(key, at) {
                    assert(twin.entries@[at].name@ == self.entries@[at].name@);
                    assert forall|j: int| 0 <= j < at implies twin.entries@[j].name@ != key by {
                        assert(twin.entries@[j].name@ == self.entries@[j].name@);
                    }
                }
            }
            assert forall|key: Seq<char>| twin.holds(key) <==> self.holds(key) by {
                if self.holds(key) {
                    assert(twin.first_at(key, self.slot(key)));
                }
                if twin.holds(key) {
                    assert(self.first_at(key, twin.slot(key)));
                }
            }
            assert(twin@.dom() =~= self@.dom());
            assert forall|key: Seq<char>| #[trigger]
                self@.contains_key(key) implies self@[key].same_contents(&twin@[key])
                && twin@[key].lives_on(*device) by {
                assert(twin.first_at(key, self.slot(key)));
                assert(self.first_at(key, twin.slot(key)));
                let at = twin.slot(key);
                assert(twin.entries@[at].name@ == self.entries@[at].name@);
            }
        }
        Ok(twin)
    }
}

impl Default for ModelState {
    /// A state that knows no layer yet.
    fn default() -> (state: ModelState)
        ensures
            state@ == Map::<Seq<char>, LayerState>::empty(),
    {
        ModelState::new()
    }
}

} // verus!
