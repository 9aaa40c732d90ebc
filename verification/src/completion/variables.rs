//! What the completion of identifiers reads from gdb: the names of the
//! local variables, and the children of a variable object, where pseudo
//! children (access specifiers, anonymous unions and structs) are looked
//! through.
use vstd::prelude::*;
use vstd::string::StringSliceAdditionalSpecFns;
use crate::mi::value::{entries_view, member_text, member_text_exec, obj_get, object_get, str_eq, MiValue, Val};

verus! {

/// A variable object of gdb: its name, and, where gdb gives them, the
/// expression of the child it stands for and its type.
#[derive(Debug, PartialEq, Eq)]
pub struct VarObject {
    pub name: String,
    pub expr: Option<String>,
    pub typ: Option<String>,
}

/// The mathematical form of a [`VarObject`].
pub struct VarObjectView {
    pub name: Seq<char>,
    pub expr: Option<Seq<char>>,
    pub typ: Option<Seq<char>>,
}

pub open spec fn opt_view(o: Option<String>) -> Option<Seq<char>> {
    match o {
        Some(s) => Some(s@),
        None => None,
    }
}

impl View for VarObject {
    type V = VarObjectView;

    open spec fn view(&self) -> VarObjectView {
        VarObjectView { name: self.name@, expr: opt_view(self.expr), typ: opt_view(self.typ) }
    }
}

/// The variable object that gdb describes by `v`: its `name`, `exp` and
/// `type`; without a name there is none.
pub open spec fn var_object_spec(v: Val) -> Result<VarObjectView, Seq<char>> {
    match member_text(v, "name"@) {
        None => Err("Missing field 'name'"@),
        Some(n) => Ok(VarObjectView { name: n, expr: member_text(v, "exp"@), typ: member_text(v, "type"@) }),
    }
}

fn owned(s: Option<&str>) -> (r: Option<String>)
    ensures
        opt_view(r) == match s {
            Some(t) => Some(t@),
            None => None::<Seq<char>>,
        },
{
    match s {
        Some(t) => Some(t.to_owned()),
        None => None,
    }
}

/// Whether a child is a pseudo child whose own children are to be listed
/// in its place: one without a type or expression, or an anonymous union or
/// struct.
pub open spec fn pseudo_child(c: VarObjectView) -> bool {
    ||| c.typ is None
    ||| c.expr is None
    ||| c.expr == Some("<anonymous union>"@)
    ||| c.expr == Some("<anonymous struct>"@)
}

impl VarObject {
    /// The variable object that gdb describes by `o` (see
    /// [`var_object_spec`]).
    pub fn from_val(o: &MiValue) -> (r: Result<Self, String>)
        ensures
            match var_object_spec(o.view()) {
                Ok(v) => r matches Ok(x) && x@ == v,
                Err(m) => r matches Err(e) && e@ == m,
            },
    {
        let name = match member_text_exec(o, "name") {
            Some(n) => n.to_owned(),
            None => return Err("Missing field 'name'".to_owned()),
        };
        let expr = owned(member_text_exec(o, "exp"));
        let typ = owned(member_text_exec(o, "type"));
        Ok(VarObject { name, expr, typ })
    }

    /// Whether this is a pseudo child (see [`pseudo_child`]).
    pub fn is_pseudo_child(&self) -> (r: bool)
        ensures
            r == pseudo_child(self@),
    {
        match (&self.typ, &self.expr) {
            (None, _) => true,
            (_, None) => true,
            (Some(_), Some(e)) => str_eq(e.as_str(), "<anonymous union>") || str_eq(e.as_str(), "<anonymous struct>"),
        }
    }
}

/// The elements of the list under `k`, where there is one (none otherwise).
pub open spec fn list_member(results: Seq<(Seq<char>, Val)>, k: Seq<char>) -> Seq<Val> {
    match obj_get(results, k) {
        Some(Val::Array(a)) => a,
        _ => Seq::empty(),
    }
}

/// The children that gdb lists under `children`: each described as by
/// [`var_object_spec`], or the first failure.
pub open spec fn children_spec(a: Seq<Val>) -> Result<Seq<VarObjectView>, Seq<char>>
    decreases a.len(),
{
    if a.len() == 0 {
        Ok(Seq::empty())
    } else {
        match children_spec(a.drop_last()) {
            Err(m) => Err(m),
            Ok(s) => match var_object_spec(a.last()) {
                Err(m) => Err(m),
                Ok(v) => Ok(s.push(v)),
            },
        }
    }
}

fn list_exec<'a>(results: &'a [(String, MiValue)], k: &str) -> (r: &'a [MiValue])
    ensures
        crate::mi::value::values_view(r@) == list_member(entries_view(results@), k@),
{
    match object_get(results, k) {
        Some(MiValue::Array(a)) => {
            proof {
                crate::mi::value::lemma_array_view(*a);
            }
            a.as_slice()
        },
        _ => {
            let e: &[MiValue] = &[];
            assert(crate::mi::value::values_view(e@) =~= Seq::<Val>::empty());
            e
        },
    }
}

/// The children of a variable object that gdb lists (see
/// [`children_spec`]).
pub fn children_of(results: &[(String, MiValue)]) -> (r: Result<Vec<VarObject>, String>)
    ensures
        match children_spec(list_member(entries_view(results@), "children"@)) {
            Ok(s) => r matches Ok(v) && v@.map_values(|c: VarObject| c@) == s,
            Err(m) => r matches Err(e) && e@ == m,
        },
{
    let a = list_exec(results, "children");
    let ghost av = crate::mi::value::values_view(a@);
    let mut out: Vec<VarObject> = Vec::new();
    let mut i: usize = 0;
    assert(av.take(0) =~= Seq::<Val>::empty());
    assert(out@.map_values(|c: VarObject| c@) =~= Seq::<VarObjectView>::empty());
    while i < a.len()
        invariant
            i <= a@.len(),
            av == crate::mi::value::values_view(a@),
            av == list_member(entries_view(results@), "children"@),
            children_spec(av.take(i as int)) == Ok::<Seq<VarObjectView>, Seq<char>>(out@.map_values(|c: VarObject| c@)),
        decreases a@.len() - i,
    {
        assert(av.take(i + 1).drop_last() =~= av.take(i as int));
        assert(av.take(i + 1).last() == a@[i as int].view());
        match VarObject::from_val(&a[i]) {
            Ok(c) => {
                let ghost before = out@;
                out.push(c);
                assert(out@.map_values(|c: VarObject| c@) =~= before.map_values(|c: VarObject| c@).push(c@));
            },
            Err(e) => {
                proof {
                    assert(children_spec(av.take(i + 1)) == Err::<Seq<VarObjectView>, Seq<char>>(e@));
                    lemma_children_error(av, i as int);
                }
                return Err(e);
            },
        }
        i += 1;
    }
    assert(av.take(av.len() as int) =~= av);
    Ok(out)
}

proof fn lemma_children_error(a: Seq<Val>, i: int)
    requires
        0 <= i < a.len(),
        children_spec(a.take(i + 1)) is Err,
    ensures
        children_spec(a) == children_spec(a.take(i + 1)),
    decreases a.len() - i,
{
    if i + 1 < a.len() {
        lemma_children_error_extend(a, i + 1);
    } else {
        assert(a.take(i + 1) =~= a);
    }
}

proof fn lemma_children_error_extend(a: Seq<Val>, k: int)
    requires
        0 < k <= a.len(),
        children_spec(a.take(k)) is Err,
    ensures
        children_spec(a) == children_spec(a.take(k)),
    decreases a.len() - k,
{
    if k < a.len() {
        assert(a.take(k + 1).drop_last() =~= a.take(k));
        lemma_children_error_extend(a, k + 1);
    } else {
        assert(a.take(k) =~= a);
    }
}

/// The names of the local variables that gdb lists under `variables`.
pub open spec fn variable_names_spec(a: Seq<Val>) -> Seq<Seq<char>> {
    a.map_values(|v: Val| member_text(v, "name"@)->0)
}

/// The names of the local variables that gdb lists (see
/// [`variable_names_spec`]); each must have one.
pub fn variable_names(results: &[(String, MiValue)]) -> (r: Vec<String>)
    requires
        forall|i: int| 0 <= i < list_member(entries_view(results@), "variables"@).len()
            ==> (#[trigger] member_text(list_member(entries_view(results@), "variables"@)[i], "name"@)) is Some,
    ensures
        crate::completion::strings_view(r@) == variable_names_spec(list_member(entries_view(results@), "variables"@)),
{
    let a = list_exec(results, "variables");
    let ghost av = crate::mi::value::values_view(a@);
    let mut out: Vec<String> = Vec::new();
    let mut i: usize = 0;
    assert(crate::completion::strings_view(out@) =~= variable_names_spec(av.take(0)));
    while i < a.len()
        invariant
            i <= a@.len(),
            av == crate::mi::value::values_view(a@),
            av == list_member(entries_view(results@), "variables"@),
            forall|j: int| 0 <= j < av.len() ==> (#[trigger] member_text(av[j], "name"@)) is Some,
            crate::completion::strings_view(out@) == variable_names_spec(av.take(i as int)),
        decreases a@.len() - i,
    {
        assert(av[i as int] == a@[i as int].view());
        assert(member_text(av[i as int], "name"@) is Some);
        let n = match member_text_exec(&a[i], "name") {
            Some(n) => n.to_owned(),
            None => String::new(),
        };
        let ghost before = out@;
        out.push(n);
        proof {
            let t = av.take(i + 1);
            assert(t.drop_last() =~= av.take(i as int));
            assert(variable_names_spec(t) =~= variable_names_spec(av.take(i as int)).push(member_text(av[i as int], "name"@)->0));
            assert(crate::completion::strings_view(out@) =~= crate::completion::strings_view(before).push(out@[i as int]@));
        }
        i += 1;
    }
    assert(av.take(av.len() as int) =~= av);
    out
}

/// Whether the completion of `line` up to byte `cursor` is that of an
/// identifier in an expression (a blank, and so a command word, comes
/// before the cursor) rather than of a gdb command.
pub fn completes_identifier(line: &str, cursor: usize) -> (r: bool)
    requires
        cursor <= line.spec_bytes().len(),
    ensures
        r == line.spec_bytes().take(cursor as int).contains(32u8),
{
    let b = line.as_bytes();
    let mut i: usize = 0;
    while i < cursor
        invariant
            b@ == line.spec_bytes(),
            cursor <= b@.len(),
            i <= cursor,
            forall|j: int| 0 <= j < i ==> b@[j] != 32u8,
        decreases cursor - i,
    {
        if b[i] == 32u8 {
            assert(line.spec_bytes().take(cursor as int)[i as int] == 32u8);
            return true;
        }
        i += 1;
    }
    assert forall|j: int| 0 <= j < cursor implies line.spec_bytes().take(cursor as int)[j] != 32u8 by {}
    false
}

} // verus!
