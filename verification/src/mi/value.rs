//! Values of the gdb machine interface: strings, tuples (objects with named
//! members) and lists.
use vstd::prelude::*;

verus! {

/// A value in gdb/mi output.
pub enum MiValue {
    Str(String),
    Object(Vec<(String, MiValue)>),
    Array(Vec<MiValue>),
}

/// The mathematical form of an [`MiValue`].
pub enum Val {
    Str(Seq<char>),
    Object(Seq<(Seq<char>, Val)>),
    Array(Seq<Val>),
}

impl MiValue {
    pub open spec fn view(&self) -> Val
        decreases self,
    {
        match self {
            MiValue::Str(s) => Val::Str(s@),
            MiValue::Object(v) => Val::Object(
                Seq::new(
                    v.len() as nat,
                    |i: int|
                        if 0 <= i < v@.len() {
                            proof {
                                assert(decreases_to!(v => v@));
                                assert(decreases_to!(v@ => v@[i]));
                            }
                            (v@[i].0@, v@[i].1.view())
                        } else {
                            (Seq::empty(), Val::Str(Seq::empty()))
                        },
                ),
            ),
            MiValue::Array(v) => Val::Array(
                Seq::new(
                    v.len() as nat,
                    |i: int|
                        if 0 <= i < v@.len() {
                            proof {
                                assert(decreases_to!(v => v@));
                                assert(decreases_to!(v@ => v@[i]));
                            }
                            v@[i].view()
                        } else {
                            Val::Str(Seq::empty())
                        },
                ),
            ),
        }
    }

    /// Whether the value is empty: an empty string, object or list.
    pub fn is_empty(&self) -> (r: bool)
        ensures
            r == val_is_empty(Some(self.view())),
    {
        match self {
            MiValue::Str(s) => s.as_str().is_empty(),
            MiValue::Object(v) => v.len() == 0,
            MiValue::Array(v) => v.len() == 0,
        }
    }

    /// The string, if the value is one.
    pub fn as_str(&self) -> (r: Option<&str>)
        ensures
            r matches Some(s) ==> self.view() == Val::Str(s@),
            r is None ==> !(self.view() is Str),
    {
        match self {
            MiValue::Str(s) => Some(s.as_str()),
            _ => None,
        }
    }
}

/// Emptiness of a possibly missing value: a missing member counts as empty.
pub open spec fn val_is_empty(v: Option<Val>) -> bool {
    match v {
        None => true,
        Some(Val::Str(s)) => s.len() == 0,
        Some(Val::Object(o)) => o.len() == 0,
        Some(Val::Array(a)) => a.len() == 0,
    }
}

/// The mathematical form of the members of an object.
pub open spec fn entries_view(v: Seq<(String, MiValue)>) -> Seq<(Seq<char>, Val)> {
    Seq::new(v.len(), |i: int| (v[i].0@, v[i].1.view()))
}

/// The mathematical form of a list of values.
pub open spec fn values_view(v: Seq<MiValue>) -> Seq<Val> {
    Seq::new(v.len(), |i: int| v[i].view())
}

pub proof fn lemma_object_view(v: Vec<(String, MiValue)>)
    ensures
        MiValue::Object(v).view() == Val::Object(entries_view(v@)),
{
    assert(MiValue::Object(v).view()->Object_0 =~= entries_view(v@));
}

pub proof fn lemma_array_view(v: Vec<MiValue>)
    ensures
        MiValue::Array(v).view() == Val::Array(values_view(v@)),
{
    assert(MiValue::Array(v).view()->Array_0 =~= values_view(v@));
}

impl MiValue {
    /// A copy of the value.
    pub fn deep_clone(&self) -> (r: MiValue)
        ensures
            r.view() == self.view(),
        decreases self,
    {
        match self {
            MiValue::Str(s) => MiValue::Str(s.clone()),
            MiValue::Object(v) => {
                let mut out: Vec<(String, MiValue)> = Vec::new();
                let mut i: usize = 0;
                while i < v.len()
                    invariant
                        i <= v@.len(),
                        out@.len() == i,
                        forall|j: int| 0 <= j < i ==> (#[trigger] out@[j]).0@ == v@[j].0@ && out@[j].1.view() == v@[j].1.view(),
                        *self == MiValue::Object(*v),
                    decreases v@.len() - i,
                {
                    proof {
                        assert(decreases_to!(*self => (*self)->Object_0));
                        assert(decreases_to!(*v => v@));
                        assert(decreases_to!(v@ => v@[i as int]));
                        assert(decreases_to!(v@[i as int] => v@[i as int].1));
                    }
                    let c = v[i].1.deep_clone();
                    out.push((v[i].0.clone(), c));
                    i += 1;
                }
                proof {
                    lemma_object_view(*v);
                    lemma_object_view(out);
                    assert(entries_view(out@) =~= entries_view(v@));
                }
                MiValue::Object(out)
            },
            MiValue::Array(v) => {
                let mut out: Vec<MiValue> = Vec::new();
                let mut i: usize = 0;
                while i < v.len()
                    invariant
                        i <= v@.len(),
                        out@.len() == i,
                        forall|j: int| 0 <= j < i ==> (#[trigger] out@[j]).view() == v@[j].view(),
                        *self == MiValue::Array(*v),
                    decreases v@.len() - i,
                {
                    proof {
                        assert(decreases_to!(*self => (*self)->Array_0));
                        assert(decreases_to!(*v => v@));
                        assert(decreases_to!(v@ => v@[i as int]));
                    }
                    let c = v[i].deep_clone();
                    out.push(c);
                    i += 1;
                }
                proof {
                    lemma_array_view(*v);
                    lemma_array_view(out);
                    assert(values_view(out@) =~= values_view(v@));
                }
                MiValue::Array(out)
            },
        }
    }
}

/// A copy of the members of an object.
pub fn clone_entries(v: &Vec<(String, MiValue)>) -> (r: Vec<(String, MiValue)>)
    ensures
        entries_view(r@) == entries_view(v@),
{
    let mut out: Vec<(String, MiValue)> = Vec::new();
    let mut i: usize = 0;
    while i < v.len()
        invariant
            i <= v@.len(),
            out@.len() == i,
            forall|j: int| 0 <= j < i ==> (#[trigger] out@[j]).0@ == v@[j].0@ && out@[j].1.view() == v@[j].1.view(),
        decreases v@.len() - i,
    {
        let c = v[i].1.deep_clone();
        out.push((v[i].0.clone(), c));
        i += 1;
    }
    assert(entries_view(out@) =~= entries_view(v@));
    out
}

/// The value of the member named `k`: the first one of that name.
pub open spec fn obj_get(o: Seq<(Seq<char>, Val)>, k: Seq<char>) -> Option<Val>
    decreases o.len(),
{
    if o.len() == 0 {
        None
    } else if o[0].0 == k {
        Some(o[0].1)
    } else {
        obj_get(o.drop_first(), k)
    }
}

/// Setting member `k` to `v`: a member of that name keeps its place and takes
/// the new value; otherwise the member is added at the end.
pub open spec fn obj_insert(o: Seq<(Seq<char>, Val)>, k: Seq<char>, v: Val) -> Seq<(Seq<char>, Val)>
    decreases o.len(),
{
    if o.len() == 0 {
        seq![(k, v)]
    } else if o[0].0 == k {
        o.update(0, (k, v))
    } else {
        seq![o[0]] + obj_insert(o.drop_first(), k, v)
    }
}

/// Inserting the members of `rs` one after another into `acc`.
pub open spec fn insert_all(acc: Seq<(Seq<char>, Val)>, rs: Seq<(Seq<char>, Val)>) -> Seq<
    (Seq<char>, Val),
>
    decreases rs.len(),
{
    if rs.len() == 0 {
        acc
    } else {
        insert_all(obj_insert(acc, rs[0].0, rs[0].1), rs.drop_first())
    }
}

/// The object built from a list of named values, later ones replacing
/// earlier ones of the same name.
pub open spec fn to_map(rs: Seq<(Seq<char>, Val)>) -> Seq<(Seq<char>, Val)> {
    insert_all(Seq::empty(), rs)
}

/// No two members share a name.
pub open spec fn keys_unique(o: Seq<(Seq<char>, Val)>) -> bool {
    forall|i: int, j: int| 0 <= i < j < o.len() ==> o[i].0 != o[j].0
}

pub proof fn lemma_obj_get_absent(o: Seq<(Seq<char>, Val)>, k: Seq<char>)
    requires
        forall|i: int| 0 <= i < o.len() ==> o[i].0 != k,
    ensures
        obj_get(o, k) is None,
    decreases o.len(),
{
    if o.len() > 0 {
        lemma_obj_get_absent(o.drop_first(), k);
    }
}

/// The member named `key` of the object `o`.
pub fn object_get<'a>(o: &'a [(String, MiValue)], key: &str) -> (r: Option<&'a MiValue>)
    ensures
        r matches Some(v) ==> obj_get(entries_view(o@), key@) == Some(v.view()),
        r is None ==> obj_get(entries_view(o@), key@) is None,
{
    let mut i: usize = 0;
    assert(entries_view(o@).skip(0) =~= entries_view(o@));
    while i < o.len()
        invariant
            i <= o@.len(),
            obj_get(entries_view(o@), key@) == obj_get(entries_view(o@).skip(i as int), key@),
        decreases o@.len() - i,
    {
        let ghost rest = entries_view(o@).skip(i as int);
        if str_eq(o[i].0.as_str(), key) {
            assert(rest[0] == entries_view(o@)[i as int]);
            return Some(&o[i].1);
        }
        assert(rest.drop_first() =~= entries_view(o@).skip(i + 1));
        i += 1;
    }
    proof {
        lemma_obj_get_absent(entries_view(o@).skip(i as int), key@);
    }
    None
}

/// Equality of two strings (`==` of std on `str`, which compares contents).
#[verifier::external_body]
pub(crate) fn str_eq(a: &str, b: &str) -> (r: bool)
    ensures
        r == (a@ == b@),
{
    a == b
}

pub proof fn lemma_obj_insert_len(o: Seq<(Seq<char>, Val)>, k: Seq<char>, v: Val)
    ensures
        obj_insert(o, k, v).len() <= o.len() + 1,
    decreases o.len(),
{
    if o.len() > 0 && o[0].0 != k {
        lemma_obj_insert_len(o.drop_first(), k, v);
    }
}

/// Sets member `k` of `o` to `v` (see [`obj_insert`]).
pub fn object_insert(o: &mut Vec<(String, MiValue)>, k: String, v: MiValue)
    ensures
        entries_view(final(o)@) == obj_insert(entries_view(old(o)@), k@, v.view()),
{
    let ghost ov = entries_view(o@);
    let ghost kv = k@;
    let ghost vv = v.view();
    let ghost target = obj_insert(ov, kv, vv);
    let mut i: usize = 0;
    let mut found = false;
    assert(ov.skip(0) =~= ov);
    assert(ov.take(0) =~= Seq::<(Seq<char>, Val)>::empty());
    while i < o.len()
        invariant_except_break
            i <= o@.len(),
            ov == entries_view(o@),
            target == ov.take(i as int) + obj_insert(ov.skip(i as int), kv, vv),
            !found,
            kv == k@,
        ensures
            kv == k@,
            i <= o@.len(),
            ov == entries_view(o@),
            target == ov.take(i as int) + obj_insert(ov.skip(i as int), kv, vv),
            found ==> i < o@.len() && ov[i as int].0 == kv,
            !found ==> i == o@.len(),
        decreases o@.len() - i,
    {
        assert(ov[i as int].0 == o@[i as int].0@);
        if o[i].0 == k {
            found = true;
            break;
        }
        let ghost rest = ov.skip(i as int);
        assert(rest[0] == ov[i as int]);
        assert(rest.drop_first() =~= ov.skip(i + 1));
        assert(ov.take(i as int) + (seq![rest[0]] + obj_insert(rest.drop_first(), kv, vv))
            =~= ov.take(i + 1) + obj_insert(ov.skip(i + 1), kv, vv));
        i += 1;
    }
    if found {
        let ghost rest = ov.skip(i as int);
        assert(rest[0].0 == kv);
        assert(obj_insert(rest, kv, vv) == rest.update(0, (kv, vv)));
        o.set(i, (k, v));
        assert(entries_view(o@) =~= ov.take(i as int) + rest.update(0, (kv, vv)));
    } else {
        o.push((k, v));
        assert(ov.skip(i as int) =~= Seq::<(Seq<char>, Val)>::empty());
        assert(ov.take(i as int) =~= ov);
        assert(entries_view(o@) =~= ov + seq![(kv, vv)]);
    }
}

/// The object built from a list of named values (see [`to_map`]).
pub fn make_object(rs: Vec<(String, MiValue)>) -> (r: Vec<(String, MiValue)>)
    ensures
        entries_view(r@) == to_map(entries_view(rs@)),
{
    let mut rs = rs;
    let mut acc: Vec<(String, MiValue)> = Vec::new();
    let ghost all = entries_view(rs@);
    let total = rs.len();
    let mut n: usize = 0;
    assert(all.skip(0) =~= all);
    while rs.len() > 0
        invariant
            n <= all.len(),
            all.len() == total,
            entries_view(rs@) == all.skip(n as int),
            insert_all(entries_view(acc@), entries_view(rs@)) == to_map(all),
        decreases rs@.len(),
    {
        let ghost before = entries_view(rs@);
        let (k, v) = rs.remove(0);
        assert(entries_view(rs@) =~= before.drop_first());
        assert(before[0] == (k@, v.view()));
        object_insert(&mut acc, k, v);
        assert(all.skip(n as int).drop_first() =~= all.skip(n + 1));
        n += 1;
    }
    assert(entries_view(rs@) =~= Seq::<(Seq<char>, Val)>::empty());
    acc
}

/// The text of member `k` of a value, if it is a tuple with such a text.
pub open spec fn member_text(v: Val, k: Seq<char>) -> Option<Seq<char>> {
    match v {
        Val::Object(o) => match obj_get(o, k) {
            Some(Val::Str(s)) => Some(s),
            _ => None,
        },
        _ => None,
    }
}

pub fn member_text_exec<'a>(v: &'a MiValue, k: &str) -> (r: Option<&'a str>)
    ensures
        match r {
            Some(s) => member_text(v.view(), k@) == Some(s@),
            None => member_text(v.view(), k@) is None,
        },
{
    match v {
        MiValue::Object(o) => {
            proof {
                lemma_object_view(*o);
            }
            match object_get(o.as_slice(), k) {
                Some(MiValue::Str(s)) => Some(s.as_str()),
                _ => None,
            }
        },
        _ => None,
    }
}

} // verus!
