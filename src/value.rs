use vstd::prelude::*;

verus! {

/// A map key: the subset of values that may index a map.
#[derive(Clone, Debug, PartialEq)]
pub enum Key {
    Bool(bool),
    Int(i64),
    UInt(u64),
    String(String),
}

/// A runtime value.
#[derive(Debug, PartialEq)]
pub enum CelType {
    Null,
    Bool(bool),
    Int(i64),
    UInt(u64),
    String(String),
    Bytes(Vec<u8>),
    List(Vec<CelType>),
    /// A map, as its entries. In a well-formed value (`wf`) no key occurs
    /// twice; the order of the entries carries no meaning.
    Dict(Vec<(Key, CelType)>),
    /// A reference to a named function.
    Function(String),
}

/// Mathematical model of a map key.
pub enum KeyVal {
    Bool(bool),
    Int(int),
    UInt(int),
    Str(Seq<char>),
}

/// Mathematical model of a value. Lists are sequences of models; a map is the
/// sequence of its entries, whose order `val_eq` ignores.
pub enum Val {
    Null,
    Bool(bool),
    Int(int),
    UInt(int),
    Str(Seq<char>),
    Bytes(Seq<u8>),
    List(Seq<Val>),
    Dict(Seq<(KeyVal, Val)>),
    Function(Seq<char>),
}

impl Key {
    pub open spec fn view(&self) -> KeyVal {
        match self {
            Key::Bool(b) => KeyVal::Bool(*b),
            Key::Int(i) => KeyVal::Int(*i as int),
            Key::UInt(u) => KeyVal::UInt(*u as int),
            Key::String(s) => KeyVal::Str(s@),
        }
    }
}

impl Val {
    /// The key that a value converts to, if its variant may index a map.
    pub open spec fn to_key(self) -> Option<KeyVal> {
        match self {
            Val::Bool(b) => Some(KeyVal::Bool(b)),
            Val::Int(i) => Some(KeyVal::Int(i)),
            Val::UInt(u) => Some(KeyVal::UInt(u)),
            Val::Str(s) => Some(KeyVal::Str(s)),
            _ => None,
        }
    }
}

impl CelType {
    pub open spec fn view(&self) -> Val
        decreases self,
    {
        match self {
            CelType::Null => Val::Null,
            CelType::Bool(b) => Val::Bool(*b),
            CelType::Int(i) => Val::Int(*i as int),
            CelType::UInt(u) => Val::UInt(*u as int),
            CelType::String(s) => Val::Str(s@),
            CelType::Bytes(b) => Val::Bytes(b@),
            CelType::List(l) => Val::List(view_list(l@)),
            CelType::Dict(m) => Val::Dict(view_entries(m@)),
            CelType::Function(f) => Val::Function(f@),
        }
    }
}

/// Value equality on models: lists element by element; maps when they have
/// as many entries and each key of the first is a key of the second, under
/// which the values are equal in value (for maps with unique keys: the same
/// keys, in any order, with equal values); every other variant by identity.
pub open spec fn val_eq(a: Val, b: Val) -> bool
    decreases a,
{
    match a {
        Val::List(x) => match b {
            Val::List(y) => x.len() == y.len() && forall|i: int|
                #![trigger x[i]]
                0 <= i < x.len() ==> val_eq(x[i], y[i]),
            _ => false,
        },
        Val::Dict(x) => match b {
            Val::Dict(y) => x.len() == y.len() && forall|i: int|
                #![trigger x[i]]
                0 <= i < x.len() ==> 0 <= key_index(y, x[i].0) && val_eq(
                    x[i].1,
                    y[key_index(y, x[i].0)].1,
                ),
            _ => false,
        },
        _ => a == b,
    }
}

/// Index of the first entry of `m` whose key is `k`, or -1 if there is none.
pub open spec fn key_index(m: Seq<(KeyVal, Val)>, k: KeyVal) -> int
    decreases m.len(),
{
    if m.len() == 0 {
        -1
    } else if m[0].0 == k {
        0
    } else {
        let r = key_index(m.subrange(1, m.len() as int), k);
        if r < 0 {
            -1
        } else {
            r + 1
        }
    }
}

/// The value stored under `k`, if any.
pub open spec fn lookup_entry(m: Seq<(KeyVal, Val)>, k: KeyVal) -> Option<Val> {
    if key_index(m, k) >= 0 {
        Some(m[key_index(m, k)].1)
    } else {
        None
    }
}

/// No key occurs twice.
pub open spec fn keys_unique(m: Seq<(KeyVal, Val)>) -> bool {
    forall|i: int, j: int| 0 <= i < j < m.len() ==> #[trigger] m[i].0 != #[trigger] m[j].0
}

/// Well-formed value: every map in it, at any depth, has unique keys.
pub open spec fn wf(v: Val) -> bool
    decreases v,
{
    match v {
        Val::List(x) => forall|i: int| #![trigger x[i]] 0 <= i < x.len() ==> wf(x[i]),
        Val::Dict(m) => keys_unique(m) && forall|i: int| #![trigger m[i]] 0 <= i < m.len() ==> wf(m[i].1),
        _ => true,
    }
}

/// `m` with `k` bound to `v`: the entry under `k` is replaced in place if
/// there is one, else the pair is appended.
pub open spec fn put_entry(m: Seq<(KeyVal, Val)>, k: KeyVal, v: Val) -> Seq<(KeyVal, Val)> {
    if key_index(m, k) >= 0 {
        m.update(key_index(m, k), (k, v))
    } else {
        m.push((k, v))
    }
}

/// `key_index` finds the first entry with the key, and only such an entry.
pub proof fn lemma_key_index(m: Seq<(KeyVal, Val)>, k: KeyVal)
    ensures
        -1 <= key_index(m, k) < m.len(),
        key_index(m, k) >= 0 ==> m[key_index(m, k)].0 == k,
        forall|j: int|
            0 <= j < m.len() && (key_index(m, k) < 0 || j < key_index(m, k)) ==> #[trigger] m[j].0
                != k,
    decreases m.len(),
{
    if m.len() > 0 && m[0].0 != k {
        let s = m.subrange(1, m.len() as int);
        lemma_key_index(s, k);
        assert forall|j: int|
            0 <= j < m.len() && (key_index(m, k) < 0 || j < key_index(m, k)) implies #[trigger] m[j].0
                != k by {
            if j > 0 {
                assert(m[j] == s[j - 1]);
            }
        }
    }
}

/// Binding a key keeps the keys unique and the values well formed.
pub proof fn lemma_put_entry_wf(m: Seq<(KeyVal, Val)>, k: KeyVal, v: Val)
    requires
        keys_unique(m),
        forall|i: int| #![trigger m[i]] 0 <= i < m.len() ==> wf(m[i].1),
        wf(v),
    ensures
        keys_unique(put_entry(m, k, v)),
        forall|i: int|
            #![trigger put_entry(m, k, v)[i]]
            0 <= i < put_entry(m, k, v).len() ==> wf(put_entry(m, k, v)[i].1),
{
    lemma_key_index(m, k);
    let p = put_entry(m, k, v);
    assert forall|i: int, j: int| 0 <= i < j < p.len() implies #[trigger] p[i].0 != #[trigger] p[j].0 by {
        if key_index(m, k) < 0 && j == m.len() {
            assert(m[i].0 != k);
        }
    }
}

/// The models of a sequence of values, element by element.
pub open spec fn view_list(s: Seq<CelType>) -> Seq<Val>
    decreases s,
{
    if s.len() == 0 {
        Seq::empty()
    } else {
        view_list(s.subrange(0, s.len() - 1)).push(s[s.len() - 1].view())
    }
}

/// The models of a sequence of map entries, entry by entry.
pub open spec fn view_entries(s: Seq<(Key, CelType)>) -> Seq<(KeyVal, Val)>
    decreases s,
{
    if s.len() == 0 {
        Seq::empty()
    } else {
        view_entries(s.subrange(0, s.len() - 1)).push(
            (s[s.len() - 1].0.view(), s[s.len() - 1].1.view()),
        )
    }
}

pub proof fn lemma_view_list(s: Seq<CelType>)
    ensures
        view_list(s).len() == s.len(),
        forall|i: int| 0 <= i < s.len() ==> #[trigger] view_list(s)[i] == s[i].view(),
    decreases s.len(),
{
    if s.len() > 0 {
        lemma_view_list(s.subrange(0, s.len() - 1));
    }
}

pub proof fn lemma_view_entries(s: Seq<(Key, CelType)>)
    ensures
        view_entries(s).len() == s.len(),
        forall|i: int|
            0 <= i < s.len() ==> #[trigger] view_entries(s)[i] == (s[i].0.view(), s[i].1.view()),
    decreases s.len(),
{
    if s.len() > 0 {
        lemma_view_entries(s.subrange(0, s.len() - 1));
    }
}


broadcast use vstd::std_specs::vec::axiom_vec_index_decreases;

impl Key {
    /// Whether two keys are the same key.
    pub fn key_eq(&self, other: &Key) -> (r: bool)
        ensures
            r == (self.view() == other.view()),
    {
        match (self, other) {
            (Key::Bool(a), Key::Bool(b)) => *a == *b,
            (Key::Int(a), Key::Int(b)) => *a == *b,
            (Key::UInt(a), Key::UInt(b)) => *a == *b,
            (Key::String(a), Key::String(b)) => *a == *b,
            _ => false,
        }
    }

    /// A copy of the key.
    pub fn copy(&self) -> (r: Key)
        ensures
            r.view() == self.view(),
    {
        match self {
            Key::Bool(b) => Key::Bool(*b),
            Key::Int(i) => Key::Int(*i),
            Key::UInt(u) => Key::UInt(*u),
            Key::String(s) => Key::String(s.clone()),
        }
    }
}

/// Position of the first entry of `m` under key `k`.
pub fn find_key(m: &Vec<(Key, CelType)>, k: &Key) -> (r: Option<usize>)
    ensures
        match r {
            Some(j) => j < m.len() && key_index(view_entries(m@), k.view()) == j as int,
            None => key_index(view_entries(m@), k.view()) == -1,
        },
{
    let ghost es = view_entries(m@);
    proof {
        lemma_view_entries(m@);
        lemma_key_index(es, k.view());
    }
    let mut i: usize = 0;
    while i < m.len()
        invariant
            i <= m.len(),
            es == view_entries(m@),
            es.len() == m.len(),
            forall|j: int| 0 <= j < m.len() ==> #[trigger] es[j] == (m@[j].0.view(), m@[j].1.view()),
            forall|j: int| 0 <= j < i ==> #[trigger] es[j].0 != k.view(),
            -1 <= key_index(es, k.view()) < es.len(),
            key_index(es, k.view()) >= 0 ==> es[key_index(es, k.view())].0 == k.view(),
            forall|j: int|
                0 <= j < es.len() && (key_index(es, k.view()) < 0 || j < key_index(es, k.view()))
                    ==> #[trigger] es[j].0 != k.view(),
        decreases m.len() - i,
    {
        if m[i].0.key_eq(k) {
            assert(es[i as int].0 == k.view());
            return Some(i);
        }
        i += 1;
    }
    None
}

impl CelType {
    /// A copy of the value, equal to it in every part.
    pub fn copy(&self) -> (r: CelType)
        ensures
            r.view() == self.view(),
        decreases self,
    {
        match self {
            CelType::Null => CelType::Null,
            CelType::Bool(b) => CelType::Bool(*b),
            CelType::Int(i) => CelType::Int(*i),
            CelType::UInt(u) => CelType::UInt(*u),
            CelType::String(s) => CelType::String(s.clone()),
            CelType::Bytes(b) => {
                let mut out: Vec<u8> = Vec::new();
                let mut i: usize = 0;
                while i < b.len()
                    invariant
                        i <= b.len(),
                        out@ == b@.subrange(0, i as int),
                    decreases b.len() - i,
                {
                    out.push(b[i]);
                    i += 1;
                }
                assert(out@ =~= b@);
                CelType::Bytes(out)
            },
            CelType::List(l) => {
                let mut out: Vec<CelType> = Vec::new();
                let mut i: usize = 0;
                while i < l.len()
                    invariant
                        i <= l.len(),
                        *self == CelType::List(*l),
                        view_list(out@) == view_list(l@.subrange(0, i as int)),
                    decreases l.len() - i,
                {
                    proof {
                        assert(decreases_to!(*self => self->List_0));
                        assert(decreases_to!(self => l[i as int]));
                    }
                    let c = l[i].copy();
                    proof {
                        assert(l@.subrange(0, i + 1).subrange(0, i as int) =~= l@.subrange(0, i as int));
                        assert(out@.push(c).subrange(0, out@.len() as int) =~= out@);
                    }
                    out.push(c);
                    i += 1;
                }
                assert(l@.subrange(0, l@.len() as int) =~= l@);
                CelType::List(out)
            },
            CelType::Dict(m) => {
                let mut out: Vec<(Key, CelType)> = Vec::new();
                let mut i: usize = 0;
                while i < m.len()
                    invariant
                        i <= m.len(),
                        *self == CelType::Dict(*m),
                        view_entries(out@) == view_entries(m@.subrange(0, i as int)),
                    decreases m.len() - i,
                {
                    proof {
                        assert(decreases_to!(*self => self->Dict_0));
                        assert(decreases_to!(self => m[i as int].1));
                    }
                    let k = m[i].0.copy();
                    let v = m[i].1.copy();
                    proof {
                        assert(m@.subrange(0, i + 1).subrange(0, i as int) =~= m@.subrange(0, i as int));
                        assert(out@.push((k, v)).subrange(0, out@.len() as int) =~= out@);
                    }
                    out.push((k, v));
                    i += 1;
                }
                assert(m@.subrange(0, m@.len() as int) =~= m@);
                CelType::Dict(out)
            },
            CelType::Function(f) => CelType::Function(f.clone()),
        }
    }

    /// Value equality; see `val_eq`.
    pub fn value_eq(&self, other: &CelType) -> (r: bool)
        ensures
            r == val_eq(self.view(), other.view()),
        decreases self,
    {
        match (self, other) {
            (CelType::Null, CelType::Null) => true,
            (CelType::Bool(a), CelType::Bool(b)) => *a == *b,
            (CelType::Int(a), CelType::Int(b)) => *a == *b,
            (CelType::UInt(a), CelType::UInt(b)) => *a == *b,
            (CelType::String(a), CelType::String(b)) => *a == *b,
            (CelType::Function(a), CelType::Function(b)) => *a == *b,
            (CelType::Bytes(a), CelType::Bytes(b)) => {
                if a.len() != b.len() {
                    return false;
                }
                let mut i: usize = 0;
                while i < a.len()
                    invariant
                        i <= a.len(),
                        a.len() == b.len(),
                        *self == CelType::Bytes(*a),
                        *other == CelType::Bytes(*b),
                        forall|j: int| 0 <= j < i ==> a@[j] == b@[j],
                    decreases a.len() - i,
                {
                    if a[i] != b[i] {
                        assert(a@[i as int] != b@[i as int]);
                        assert(self.view() != other.view());
                        return false;
                    }
                    i += 1;
                }
                assert(a@ =~= b@);
                true
            },
            (CelType::List(a), CelType::List(b)) => {
                proof {
                    lemma_view_list(a@);
                    lemma_view_list(b@);
                }
                if a.len() != b.len() {
                    return false;
                }
                let mut i: usize = 0;
                while i < a.len()
                    invariant
                        i <= a.len(),
                        a.len() == b.len(),
                        *self == CelType::List(*a),
                        *other == CelType::List(*b),
                        view_list(a@).len() == a.len(),
                        view_list(b@).len() == b.len(),
                        forall|j: int| 0 <= j < a.len() ==> #[trigger] view_list(a@)[j] == a@[j].view(),
                        forall|j: int| 0 <= j < b.len() ==> #[trigger] view_list(b@)[j] == b@[j].view(),
                        forall|j: int|
                            #![trigger view_list(a@)[j]]
                            0 <= j < i ==> val_eq(view_list(a@)[j], view_list(b@)[j]),
                    decreases a.len() - i,
                {
                    proof {
                        assert(decreases_to!(self => a[i as int]));
                    }
                    if !a[i].value_eq(&b[i]) {
                        assert(!val_eq(view_list(a@)[i as int], view_list(b@)[i as int]));
                        assert(!val_eq(self.view(), other.view()));
                        return false;
                    }
                    i += 1;
                }
                true
            },
            (CelType::Dict(a), CelType::Dict(b)) => {
                let ghost va = view_entries(a@);
                let ghost vb = view_entries(b@);
                proof {
                    lemma_view_entries(a@);
                    lemma_view_entries(b@);
                }
                if a.len() != b.len() {
                    return false;
                }
                let mut i: usize = 0;
                while i < a.len()
                    invariant
                        i <= a.len(),
                        a.len() == b.len(),
                        *self == CelType::Dict(*a),
                        *other == CelType::Dict(*b),
                        va == view_entries(a@),
                        vb == view_entries(b@),
                        va.len() == a.len(),
                        vb.len() == b.len(),
                        forall|k: int| 0 <= k < a.len() ==> #[trigger] va[k] == (a@[k].0.view(), a@[k].1.view()),
                        forall|k: int| 0 <= k < b.len() ==> #[trigger] vb[k] == (b@[k].0.view(), b@[k].1.view()),
                        forall|k: int|
                            #![trigger va[k]]
                            0 <= k < i ==> 0 <= key_index(vb, va[k].0) && val_eq(
                                va[k].1,
                                vb[key_index(vb, va[k].0)].1,
                            ),
                    decreases a.len() - i,
                {
                    proof {
                        assert(decreases_to!(self => a[i as int].1));
                    }
                    match find_key(b, &a[i].0) {
                        None => {
                            assert(key_index(vb, va[i as int].0) < 0);
                            return false;
                        },
                        Some(j) => {
                            if !a[i].1.value_eq(&b[j].1) {
                                assert(!val_eq(va[i as int].1, vb[key_index(vb, va[i as int].0)].1));
                                return false;
                            }
                        },
                    }
                    i += 1;
                }
                true
            },
            _ => false,
        }
    }
}

} // verus!
