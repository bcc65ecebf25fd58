//! The attribute store of one entity.

use vstd::prelude::*;
use crate::attributes::Attribute;
use crate::error::StateError;
use crate::value::{Value, ValueKind};

verus! {

/// What an entity's store holds: the values by key, the keys set this tick,
/// and the keys that are removed at the end of a tick in which nobody set them.
/// All keys are in their hash-only form.
pub struct StateView {
    pub data: Map<Attribute, Value>,
    pub changed: Set<Attribute>,
    pub temp: Set<Attribute>,
}

pub open spec fn keys_unique(s: Seq<(Attribute, Value)>) -> bool {
    forall|i: int, j: int| 0 <= i < j < s.len() ==> s[i].0 != s[j].0
}

pub open spec fn no_duplicates(s: Seq<Attribute>) -> bool {
    forall|i: int, j: int| 0 <= i < j < s.len() ==> s[i] != s[j]
}

pub open spec fn has_key(s: Seq<(Attribute, Value)>, k: Attribute) -> bool {
    exists|i: int| 0 <= i < s.len() && s[i].0 == k
}

/// The map that a list of entries with distinct keys stands for.
pub open spec fn map_of(s: Seq<(Attribute, Value)>) -> Map<Attribute, Value> {
    Map::new(
        |k: Attribute| has_key(s, k),
        |k: Attribute| s[choose|i: int| 0 <= i < s.len() && s[i].0 == k].1,
    )
}

proof fn lemma_map_of_at(s: Seq<(Attribute, Value)>, i: int)
    requires
        keys_unique(s),
        0 <= i < s.len(),
    ensures
        map_of(s).dom().contains(s[i].0),
        map_of(s)[s[i].0] == s[i].1,
{
    let k = s[i].0;
    assert(has_key(s, k));
    let j = choose|j: int| 0 <= j < s.len() && s[j].0 == k;
    assert(i == j);
}

proof fn lemma_map_of_update(s: Seq<(Attribute, Value)>, i: int, v: Value)
    requires
        keys_unique(s),
        0 <= i < s.len(),
    ensures
        keys_unique(s.update(i, (s[i].0, v))),
        map_of(s.update(i, (s[i].0, v))) == map_of(s).insert(s[i].0, v),
{
    let t = s.update(i, (s[i].0, v));
    assert(keys_unique(t));
    assert forall|k: Attribute| #[trigger] has_key(t, k) == map_of(s).insert(s[i].0, v).dom().contains(k) by {
        if has_key(t, k) {
            let j = choose|j: int| 0 <= j < t.len() && t[j].0 == k;
            assert(s[j].0 == k);
        }
        if has_key(s, k) {
            let j = choose|j: int| 0 <= j < s.len() && s[j].0 == k;
            assert(t[j].0 == k);
        }
        if k == s[i].0 {
            assert(t[i].0 == k);
        }
    }
    assert forall|k: Attribute| #[trigger] map_of(t).dom().contains(k) implies map_of(t)[k] == map_of(s).insert(s[i].0, v)[k] by {
        let j = choose|j: int| 0 <= j < t.len() && t[j].0 == k;
        lemma_map_of_at(t, j);
        if j != i {
            lemma_map_of_at(s, j);
        }
    }
    assert(map_of(t) =~= map_of(s).insert(s[i].0, v));
}

proof fn lemma_map_of_push(s: Seq<(Attribute, Value)>, k: Attribute, v: Value)
    requires
        keys_unique(s),
        !has_key(s, k),
    ensures
        keys_unique(s.push((k, v))),
        map_of(s.push((k, v))) == map_of(s).insert(k, v),
{
    let t = s.push((k, v));
    assert forall|a: int, b: int| 0 <= a < b < t.len() implies t[a].0 != t[b].0 by {
        if b == s.len() {
            assert(s[a].0 != k);
        }
    }
    assert forall|x: Attribute| #[trigger] has_key(t, x) == map_of(s).insert(k, v).dom().contains(x) by {
        if has_key(t, x) {
            let j = choose|j: int| 0 <= j < t.len() && t[j].0 == x;
            if j < s.len() {
                assert(s[j].0 == x);
            }
        }
        if has_key(s, x) {
            let j = choose|j: int| 0 <= j < s.len() && s[j].0 == x;
            assert(t[j].0 == x);
        }
        if x == k {
            assert(t[s.len() as int].0 == x);
        }
    }
    assert forall|x: Attribute| #[trigger] map_of(t).dom().contains(x) implies map_of(t)[x] == map_of(s).insert(k, v)[x] by {
        let j = choose|j: int| 0 <= j < t.len() && t[j].0 == x;
        lemma_map_of_at(t, j);
        if j < s.len() {
            lemma_map_of_at(s, j);
        }
    }
    assert(map_of(t) =~= map_of(s).insert(k, v));
}

proof fn lemma_map_of_remove(s: Seq<(Attribute, Value)>, i: int)
    requires
        keys_unique(s),
        0 <= i < s.len(),
    ensures
        keys_unique(s.remove(i)),
        map_of(s.remove(i)) == map_of(s).remove(s[i].0),
{
    let t = s.remove(i);
    assert forall|a: int, b: int| 0 <= a < b < t.len() implies t[a].0 != t[b].0 by {
        let a2 = if a < i { a } else { a + 1 };
        let b2 = if b < i { b } else { b + 1 };
        assert(t[a] == s[a2]);
        assert(t[b] == s[b2]);
    }
    assert forall|x: Attribute| #[trigger] has_key(t, x) == map_of(s).remove(s[i].0).dom().contains(x) by {
        if has_key(t, x) {
            let j = choose|j: int| 0 <= j < t.len() && t[j].0 == x;
            let j2 = if j < i { j } else { j + 1 };
            assert(s[j2].0 == x);
        }
        if has_key(s, x) && x != s[i].0 {
            let j = choose|j: int| 0 <= j < s.len() && s[j].0 == x;
            if j < i {
                assert(t[j].0 == x);
            } else {
                assert(t[j - 1].0 == x);
            }
        }
    }
    assert forall|x: Attribute| #[trigger] map_of(t).dom().contains(x) implies map_of(t)[x] == map_of(s).remove(s[i].0)[x] by {
        let j = choose|j: int| 0 <= j < t.len() && t[j].0 == x;
        lemma_map_of_at(t, j);
        let j2 = if j < i { j } else { j + 1 };
        assert(t[j] == s[j2]);
        lemma_map_of_at(s, j2);
    }
    assert(map_of(t) =~= map_of(s).remove(s[i].0));
}

proof fn lemma_set_remove(s: Seq<Attribute>, i: int)
    requires
        no_duplicates(s),
        0 <= i < s.len(),
    ensures
        no_duplicates(s.remove(i)),
        s.remove(i).to_set() == s.to_set().remove(s[i]),
{
    let t = s.remove(i);
    assert forall|a: int, b: int| 0 <= a < b < t.len() implies t[a] != t[b] by {
        let a2 = if a < i { a } else { a + 1 };
        let b2 = if b < i { b } else { b + 1 };
        assert(t[a] == s[a2]);
        assert(t[b] == s[b2]);
    }
    assert forall|x: Attribute| #[trigger] t.to_set().contains(x) == s.to_set().remove(s[i]).contains(x) by {
        if t.contains(x) {
            let j = choose|j: int| 0 <= j < t.len() && t[j] == x;
            let j2 = if j < i { j } else { j + 1 };
            assert(s[j2] == x);
        }
        if s.contains(x) && x != s[i] {
            let j = choose|j: int| 0 <= j < s.len() && s[j] == x;
            if j < i {
                assert(t[j] == x);
            } else {
                assert(t[j - 1] == x);
            }
        }
    }
    assert(t.to_set() =~= s.to_set().remove(s[i]));
}

proof fn lemma_set_push(s: Seq<Attribute>, x: Attribute)
    requires
        no_duplicates(s),
        !s.contains(x),
    ensures
        no_duplicates(s.push(x)),
        s.push(x).to_set() == s.to_set().insert(x),
{
    let t = s.push(x);
    assert forall|a: int, b: int| 0 <= a < b < t.len() implies t[a] != t[b] by {
        if b == s.len() {
            assert(s.contains(s[a]));
        }
    }
    assert forall|y: Attribute| #[trigger] t.to_set().contains(y) == s.to_set().insert(x).contains(y) by {
        if t.contains(y) {
            let j = choose|j: int| 0 <= j < t.len() && t[j] == y;
            if j < s.len() {
                assert(s[j] == y);
            }
        }
        if s.contains(y) {
            let j = choose|j: int| 0 <= j < s.len() && s[j] == y;
            assert(t[j] == y);
        }
        if y == x {
            assert(t[s.len() as int] == y);
        }
    }
    assert(t.to_set() =~= s.to_set().insert(x));
}

/// What reading `key` as a value of `kind` gives.
pub open spec fn typed(v: StateView, key: Attribute, kind: ValueKind) -> Result<Value, StateError> {
    if !v.data.dom().contains(key.reduced()) {
        Err(StateError::NotFound)
    } else if v.data[key.reduced()].spec_kind() != kind {
        Err(StateError::WrongType)
    } else {
        Ok(v.data[key.reduced()])
    }
}

/// The store after `key` is set to `val`.
pub open spec fn after_set(v: StateView, key: Attribute, val: Value) -> StateView {
    StateView {
        data: v.data.insert(key.reduced(), val),
        changed: v.changed.insert(key.reduced()),
        temp: v.temp,
    }
}

/// The store at the start of a tick that lasted `delta` microseconds: nothing
/// has changed yet but the stamped time.
pub open spec fn after_begin_tick(v: StateView, delta: u64) -> StateView {
    StateView {
        data: v.data.insert(Attribute::Delta, Value::Micros(delta)),
        changed: Set::empty().insert(Attribute::Delta),
        temp: v.temp,
    }
}

/// The store at the end of a tick: temporary keys that nobody set are gone.
pub open spec fn after_end_tick(v: StateView) -> StateView {
    StateView {
        data: v.data.restrict(v.data.dom().filter(|k: Attribute| !(v.temp.contains(k) && !v.changed.contains(k)))),
        changed: v.changed,
        temp: v.temp,
    }
}

impl Default for AnimationState {
    /// The same store as `new` makes.
    fn default() -> (r: AnimationState)
        ensures
            r.well_formed(),
            r@.data == map![
                Attribute::Delta => Value::Micros(0),
                Attribute::Frames => Value::Usize(0),
                Attribute::FlipX => Value::Bool(false),
                Attribute::FlipY => Value::Bool(false)
            ],
            r@.changed == Set::<Attribute>::empty(),
            r@.temp == Set::<Attribute>::empty(),
    {
        AnimationState::new()
    }
}

/// The store after a run of writes, made one after another.
pub open spec fn after_sets(v: StateView, writes: Seq<(Attribute, Value)>) -> StateView
    decreases writes.len(),
{
    if writes.len() == 0 {
        v
    } else {
        let w = writes.last();
        after_set(after_sets(v, writes.drop_last()), w.0, w.1)
    }
}

proof fn lemma_after_sets(v: StateView, writes: Seq<(Attribute, Value)>, key: Attribute)
    ensures
        after_sets(v, writes).temp == v.temp,
        after_sets(v, writes).changed.contains(key.reduced()) == (v.changed.contains(key.reduced())
            || exists|i: int| 0 <= i < writes.len() && writes[i].0.reduced() == key.reduced()),
        after_sets(v, writes).data.dom().contains(key.reduced()) == (v.data.dom().contains(key.reduced())
            || exists|i: int| 0 <= i < writes.len() && writes[i].0.reduced() == key.reduced()),
    decreases writes.len(),
{
    if writes.len() > 0 {
        let init = writes.drop_last();
        lemma_after_sets(v, init, key);
        if exists|i: int| 0 <= i < init.len() && init[i].0.reduced() == key.reduced() {
            let i = choose|i: int| 0 <= i < init.len() && init[i].0.reduced() == key.reduced();
            assert(writes[i].0.reduced() == key.reduced());
        }
        if exists|i: int| 0 <= i < writes.len() && writes[i].0.reduced() == key.reduced() {
            let i = choose|i: int| 0 <= i < writes.len() && writes[i].0.reduced() == key.reduced();
            if i < init.len() {
                assert(init[i].0.reduced() == key.reduced());
            }
        }
    }
}

/// A temporary key that nobody sets during a tick is gone from the store at
/// the tick's end; one that is set during the tick is still there.
pub proof fn lemma_temporary_expiry(
    v: StateView,
    key: Attribute,
    delta: u64,
    writes: Seq<(Attribute, Value)>,
)
    requires
        v.temp.contains(key.reduced()),
        key.reduced() != Attribute::Delta,
    ensures
        (forall|i: int| 0 <= i < writes.len() ==> writes[i].0.reduced() != key.reduced())
            ==> !after_end_tick(after_sets(after_begin_tick(v, delta), writes)).data.dom().contains(key.reduced()),
        (exists|i: int| 0 <= i < writes.len() && writes[i].0.reduced() == key.reduced())
            ==> after_end_tick(after_sets(after_begin_tick(v, delta), writes)).data.dom().contains(key.reduced()),
{
    let b = after_begin_tick(v, delta);
    lemma_after_sets(b, writes, key);
    assert(key.reduced().reduced() == key.reduced());
}

/// The attribute store of one entity.
///
/// Values are kept by key with their kind; reading a key as another kind is an
/// error of its own. Setting a key marks it changed for the tick; a key marked
/// temporary is removed at the end of a tick in which it was not set.
#[derive(Debug)]
pub struct AnimationState {
    entries: Vec<(Attribute, Value)>,
    changed: Vec<Attribute>,
    temp: Vec<Attribute>,
}

impl View for AnimationState {
    type V = StateView;

    closed spec fn view(&self) -> StateView {
        StateView {
            data: map_of(self.entries@),
            changed: self.changed@.to_set(),
            temp: self.temp@.to_set(),
        }
    }
}

impl AnimationState {
    /// The temporary keys in the order they were marked.
    pub closed spec fn temp_list(&self) -> Seq<Attribute> {
        self.temp@
    }

    pub closed spec fn well_formed(&self) -> bool {
        &&& keys_unique(self.entries@)
        &&& forall|i: int| 0 <= i < self.entries@.len() ==> (#[trigger] self.entries@[i]).0 == self.entries@[i].0.reduced()
        &&& no_duplicates(self.changed@)
        &&& forall|i: int| 0 <= i < self.changed@.len() ==> #[trigger] self.changed@[i] == self.changed@[i].reduced()
        &&& no_duplicates(self.temp@)
        &&& forall|i: int| 0 <= i < self.temp@.len() ==> #[trigger] self.temp@[i] == self.temp@[i].reduced()
    }

    /// A store with the core slots seeded: no time passed, no frames advanced,
    /// no flips.
    pub fn new() -> (r: AnimationState)
        ensures
            r.well_formed(),
            r@.data == map![
                Attribute::Delta => Value::Micros(0),
                Attribute::Frames => Value::Usize(0),
                Attribute::FlipX => Value::Bool(false),
                Attribute::FlipY => Value::Bool(false)
            ],
            r@.changed == Set::<Attribute>::empty(),
            r@.temp == Set::<Attribute>::empty(),
    {
        let mut s = AnimationState { entries: Vec::new(), changed: Vec::new(), temp: Vec::new() };
        proof {
            assert(map_of(s.entries@) =~= Map::<Attribute, Value>::empty());
            assert(s.changed@.to_set() =~= Set::<Attribute>::empty());
            assert(s.temp@.to_set() =~= Set::<Attribute>::empty());
        }
        s.put(Attribute::Delta, Value::Micros(0));
        s.put(Attribute::Frames, Value::Usize(0));
        s.put(Attribute::FlipX, Value::Bool(false));
        s.put(Attribute::FlipY, Value::Bool(false));
        proof {
            assert(s@.data =~= map![
                Attribute::Delta => Value::Micros(0),
                Attribute::Frames => Value::Usize(0),
                Attribute::FlipX => Value::Bool(false),
                Attribute::FlipY => Value::Bool(false)
            ]);
        }
        s
    }

    /// Whether the store holds a value under `key`.
    pub fn contains(&self, key: &Attribute) -> (r: bool)
        requires
            self.well_formed(),
        ensures
            r == self@.data.dom().contains(key.reduced()),
    {
        self.find_entry(key).is_some()
    }

    fn find_entry(&self, key: &Attribute) -> (r: Option<usize>)
        requires
            self.well_formed(),
        ensures
            r matches Some(i) ==> i < self.entries@.len() && self.entries@[i as int].0 == key.reduced(),
            r is None ==> !self@.data.dom().contains(key.reduced()),
    {
        let mut i: usize = 0;
        while i < self.entries.len()
            invariant
                self.well_formed(),
                i <= self.entries@.len(),
                forall|j: int| 0 <= j < i ==> self.entries@[j].0 != key.reduced(),
            decreases self.entries@.len() - i,
        {
            if self.entries[i].0 == *key {
                return Some(i);
            }
            i = i + 1;
        }
        None
    }

    /// Stores `val` under `key` without marking it changed.
    fn put(&mut self, key: Attribute, val: Value)
        requires
            old(self).well_formed(),
        ensures
            final(self).well_formed(),
            final(self)@.data == old(self)@.data.insert(key.reduced(), val),
            final(self)@.changed == old(self)@.changed,
            final(self)@.temp == old(self)@.temp,
    {
        match self.find_entry(&key) {
            Some(i) => {
                proof {
                    lemma_map_of_update(self.entries@, i as int, val);
                }
                let k = key.clone();
                self.entries.set(i, (k, val));
                proof {
                    assert(self.entries@ =~= old(self).entries@.update(i as int, (old(self).entries@[i as int].0, val)));
                }
            },
            None => {
                proof {
                    lemma_map_of_push(self.entries@, key.reduced(), val);
                }
                self.entries.push((key.clone(), val));
            },
        }
    }

    /// The value stored under `key`.
    pub fn get_attribute(&self, key: &Attribute) -> (r: Result<Value, StateError>)
        requires
            self.well_formed(),
        ensures
            r == (if self@.data.dom().contains(key.reduced()) {
                Ok::<Value, StateError>(self@.data[key.reduced()])
            } else {
                Err(StateError::NotFound)
            }),
    {
        match self.find_entry(key) {
            Some(i) => {
                proof {
                    lemma_map_of_at(self.entries@, i as int);
                }
                Ok(self.entries[i].1)
            },
            None => Err(StateError::NotFound),
        }
    }

    /// The value stored under `key`, which must be of `kind`.
    pub fn get_typed(&self, key: &Attribute, kind: ValueKind) -> (r: Result<Value, StateError>)
        requires
            self.well_formed(),
        ensures
            r == typed(self@, *key, kind),
    {
        match self.get_attribute(key) {
            Ok(v) => {
                if v.kind() == kind {
                    Ok(v)
                } else {
                    Err(StateError::WrongType)
                }
            },
            Err(e) => Err(e),
        }
    }

    /// The count stored under `key`.
    pub fn get_usize(&self, key: &Attribute) -> (r: Result<usize, StateError>)
        requires
            self.well_formed(),
        ensures
            r == (match typed(self@, *key, ValueKind::Usize) {
                Ok(Value::Usize(n)) => Ok::<usize, StateError>(n),
                Ok(_) => Err(StateError::WrongType),
                Err(e) => Err(e),
            }),
    {
        match self.get_typed(key, ValueKind::Usize) {
            Ok(Value::Usize(n)) => Ok(n),
            Ok(_) => Err(StateError::WrongType),
            Err(e) => Err(e),
        }
    }

    /// The time in microseconds stored under `key`.
    pub fn get_micros(&self, key: &Attribute) -> (r: Result<u64, StateError>)
        requires
            self.well_formed(),
        ensures
            r == (match typed(self@, *key, ValueKind::Micros) {
                Ok(Value::Micros(n)) => Ok::<u64, StateError>(n),
                Ok(_) => Err(StateError::WrongType),
                Err(e) => Err(e),
            }),
    {
        match self.get_typed(key, ValueKind::Micros) {
            Ok(Value::Micros(n)) => Ok(n),
            Ok(_) => Err(StateError::WrongType),
            Err(e) => Err(e),
        }
    }

    /// The flag stored under `key`.
    pub fn get_bool(&self, key: &Attribute) -> (r: Result<bool, StateError>)
        requires
            self.well_formed(),
        ensures
            r == (match typed(self@, *key, ValueKind::Bool) {
                Ok(Value::Bool(b)) => Ok::<bool, StateError>(b),
                Ok(_) => Err(StateError::WrongType),
                Err(e) => Err(e),
            }),
    {
        match self.get_typed(key, ValueKind::Bool) {
            Ok(Value::Bool(b)) => Ok(b),
            Ok(_) => Err(StateError::WrongType),
            Err(e) => Err(e),
        }
    }

    /// The ratio in thousandths stored under `key`.
    pub fn get_permille(&self, key: &Attribute) -> (r: Result<u64, StateError>)
        requires
            self.well_formed(),
        ensures
            r == (match typed(self@, *key, ValueKind::Permille) {
                Ok(Value::Permille(n)) => Ok::<u64, StateError>(n),
                Ok(_) => Err(StateError::WrongType),
                Err(e) => Err(e),
            }),
    {
        match self.get_typed(key, ValueKind::Permille) {
            Ok(Value::Permille(n)) => Ok(n),
            Ok(_) => Err(StateError::WrongType),
            Err(e) => Err(e),
        }
    }

    fn mark_changed(&mut self, key: &Attribute)
        requires
            old(self).well_formed(),
        ensures
            final(self).well_formed(),
            final(self)@ == (StateView { changed: old(self)@.changed.insert(key.reduced()), ..old(self)@ }),
    {
        let mut i: usize = 0;
        while i < self.changed.len()
            invariant
                self.well_formed(),
                i <= self.changed@.len(),
                forall|j: int| 0 <= j < i ==> self.changed@[j] != key.reduced(),
            decreases self.changed@.len() - i,
        {
            if self.changed[i] == *key {
                proof {
                    assert(self.changed@.to_set().insert(key.reduced()) =~= self.changed@.to_set());
                }
                return;
            }
            i = i + 1;
        }
        proof {
            lemma_set_push(self.changed@, key.reduced());
        }
        self.changed.push(key.clone());
    }

    /// Sets `key` to `val`, whatever was stored under it before, and marks the
    /// key changed for this tick.
    pub fn set_attribute(&mut self, key: Attribute, val: Value)
        requires
            old(self).well_formed(),
        ensures
            final(self).well_formed(),
            final(self)@ == after_set(old(self)@, key, val),
    {
        self.mark_changed(&key);
        self.put(key, val);
    }

    fn position_in(v: &Vec<Attribute>, key: &Attribute) -> (r: Option<usize>)
        requires
            forall|i: int| 0 <= i < v@.len() ==> #[trigger] v@[i] == v@[i].reduced(),
        ensures
            r matches Some(i) ==> i < v@.len() && v@[i as int] == key.reduced(),
            r is None ==> !v@.contains(key.reduced()),
    {
        let mut i: usize = 0;
        while i < v.len()
            invariant
                forall|j: int| 0 <= j < v@.len() ==> #[trigger] v@[j] == v@[j].reduced(),
                i <= v@.len(),
                forall|j: int| 0 <= j < i ==> v@[j] != key.reduced(),
            decreases v@.len() - i,
        {
            if v[i] == *key {
                return Some(i);
            }
            i = i + 1;
        }
        None
    }

    /// Keeps `key` past ticks in which it is not set; says whether it was
    /// temporary.
    pub fn set_persistent(&mut self, key: &Attribute) -> (r: bool)
        requires
            old(self).well_formed(),
        ensures
            final(self).well_formed(),
            r == old(self)@.temp.contains(key.reduced()),
            final(self)@ == (StateView { temp: old(self)@.temp.remove(key.reduced()), ..old(self)@ }),
    {
        match Self::position_in(&self.temp, key) {
            Some(i) => {
                proof {
                    lemma_set_remove(self.temp@, i as int);
                }
                self.temp.remove(i);
                true
            },
            None => {
                proof {
                    assert(self.temp@.to_set().remove(key.reduced()) =~= self.temp@.to_set());
                }
                false
            },
        }
    }

    /// Marks `key` to be removed at the end of any tick in which it is not set;
    /// says whether it was not temporary before.
    pub fn set_temporary(&mut self, key: Attribute) -> (r: bool)
        requires
            old(self).well_formed(),
        ensures
            final(self).well_formed(),
            r == !old(self)@.temp.contains(key.reduced()),
            final(self)@ == (StateView { temp: old(self)@.temp.insert(key.reduced()), ..old(self)@ }),
    {
        match Self::position_in(&self.temp, &key) {
            Some(i) => {
                proof {
                    assert(self.temp@.to_set().insert(key.reduced()) =~= self.temp@.to_set());
                }
                false
            },
            None => {
                proof {
                    lemma_set_push(self.temp@, key.reduced());
                }
                self.temp.push(key.clone());
                true
            },
        }
    }

    /// Whether `key` was set this tick.
    pub fn changed(&self, key: &Attribute) -> (r: bool)
        requires
            self.well_formed(),
        ensures
            r == self@.changed.contains(key.reduced()),
    {
        Self::position_in(&self.changed, key).is_some()
    }

    /// Removes the value under `key`, and with it the key's kind.
    pub fn clear_attribute(&mut self, key: &Attribute)
        requires
            old(self).well_formed(),
        ensures
            final(self).well_formed(),
            final(self)@ == (StateView { data: old(self)@.data.remove(key.reduced()), ..old(self)@ }),
            final(self).temp_list() == old(self).temp_list(),
    {
        match self.find_entry(key) {
            Some(i) => {
                proof {
                    lemma_map_of_remove(self.entries@, i as int);
                }
                self.entries.remove(i);
            },
            None => {
                proof {
                    assert(old(self)@.data.remove(key.reduced()) =~= old(self)@.data);
                }
            },
        }
    }

    /// The position an index key holds: its count, or 0 where none is stored
    /// or something other than a count is; none for a key that is no index.
    pub fn get_index(&self, key: &Attribute) -> (r: Option<usize>)
        requires
            self.well_formed(),
        ensures
            r == (if !key.spec_is_index() {
                None
            } else {
                match typed(self@, *key, ValueKind::Usize) {
                    Ok(Value::Usize(n)) => Some(n),
                    _ => Some(0usize),
                }
            }),
    {
        if !key.is_index() {
            return None;
        }
        match self.get_typed(key, ValueKind::Usize) {
            Ok(Value::Usize(n)) => Some(n),
            _ => Some(0),
        }
    }

    /// The position an index key holds, or 0 where none is stored.
    pub fn index(&self, key: &Attribute) -> (r: usize)
        requires
            self.well_formed(),
            key.spec_is_index(),
        ensures
            Some(r) == self.get_index_spec(*key),
    {
        match self.get_typed(key, ValueKind::Usize) {
            Ok(Value::Usize(n)) => n,
            _ => 0,
        }
    }

    pub open spec fn get_index_spec(&self, key: Attribute) -> Option<usize> {
        if !key.spec_is_index() {
            None
        } else {
            match typed(self@, key, ValueKind::Usize) {
                Ok(Value::Usize(n)) => Some(n),
                _ => Some(0usize),
            }
        }
    }

    /// Starts a tick that lasted `delta` microseconds: forgets which keys were
    /// set, then stamps the time.
    pub fn begin_tick(&mut self, delta: u64)
        requires
            old(self).well_formed(),
        ensures
            final(self).well_formed(),
            final(self)@ == after_begin_tick(old(self)@, delta),
    {
        self.changed.clear();
        proof {
            assert(self.changed@.to_set() =~= Set::<Attribute>::empty());
        }
        self.set_attribute(Attribute::Delta, Value::Micros(delta));
        proof {
            assert(self@.changed =~= Set::<Attribute>::empty().insert(Attribute::Delta));
        }
    }

    /// Ends a tick: removes the value of every temporary key that was not set
    /// during it.
    pub fn end_tick(&mut self)
        requires
            old(self).well_formed(),
        ensures
            final(self).well_formed(),
            final(self)@ == after_end_tick(old(self)@),
    {
        let ghost v0 = self@;
        let ghost ts = self.temp@;
        let mut i: usize = 0;
        while i < self.temp.len()
            invariant
                self.well_formed(),
                self.temp@ == ts,
                i <= self.temp@.len(),
                self@.changed == v0.changed,
                self@.temp == v0.temp,
                self@.data == v0.data.restrict(v0.data.dom().filter(
                    |k: Attribute| !(self.temp@.subrange(0, i as int).contains(k) && !v0.changed.contains(k)),
                )),
            decreases self.temp@.len() - i,
        {
            let key = self.temp[i].clone();
            let ghost before = self@.data;
            if !self.changed(&key) {
                self.clear_attribute(&key);
            }
            proof {
                let t = ts;
                let seen = t.subrange(0, i as int);
                let seen_next = t.subrange(0, i + 1);
                assert(seen_next =~= seen.push(t[i as int]));
                assert forall|k: Attribute| seen_next.contains(k) == (seen.contains(k) || k == t[i as int]) by {
                    if seen_next.contains(k) {
                        let j = choose|j: int| 0 <= j < seen_next.len() && seen_next[j] == k;
                        if j < seen.len() {
                            assert(seen[j] == k);
                        }
                    }
                    if seen.contains(k) {
                        let j = choose|j: int| 0 <= j < seen.len() && seen[j] == k;
                        assert(seen_next[j] == k);
                    }
                    if k == t[i as int] {
                        assert(seen_next[i as int] == k);
                    }
                }
                assert(self@.data =~= v0.data.restrict(v0.data.dom().filter(
                    |k: Attribute| !(seen_next.contains(k) && !v0.changed.contains(k)),
                )));
            }
            i = i + 1;
        }
        proof {
            assert(self.temp@.subrange(0, i as int) =~= self.temp@);
            assert(self@.data =~= after_end_tick(v0).data);
        }
    }
}

} // verus!
