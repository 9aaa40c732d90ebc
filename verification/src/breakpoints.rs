//! The breakpoints that gdb reports: how a breakpoint is read from gdb's
//! description of it, and the set of known breakpoints keyed by number.
use vstd::prelude::*;
use vstd::string::StringSliceAdditionalSpecFns;
use vstd::utf8::{decode_utf8, encode_utf8, is_char_boundary};
use crate::mi::commands::{breakpoint_number_spec, BreakPointNumber};
use crate::mi::output::{BreakPointEvent, ResultClass};
use crate::mi::value::{entries_view, obj_get, object_get, str_eq, MiValue, Val};
use crate::numbers::{parse_usize, parse_usize_spec, IntErrorKind};

verus! {

/// A code address.
#[derive(Clone, Copy, PartialEq, Eq, Debug, Structural)]
pub struct Address(pub usize);

/// The text of `s` after its first two bytes (`0x`).
pub open spec fn after_prefix(s: Seq<char>) -> Seq<char> {
    decode_utf8(encode_utf8(s).skip(2))
}

/// The address that the hexadecimal text `s` (after its two-character
/// prefix) stands for, or why there is none.
pub open spec fn address_spec(s: Seq<char>) -> Result<nat, IntErrorKind> {
    parse_usize_spec(after_prefix(s), 16)
}

impl Address {
    /// The address of a text such as `0x4005d6` (see [`address_spec`]); on
    /// failure, the error with the text.
    pub fn parse(string: &str) -> (r: Result<Self, (IntErrorKind, String)>)
        requires
            is_char_boundary(encode_utf8(string@), 2),
        ensures
            match r {
                Ok(a) => address_spec(string@) == Ok::<nat, IntErrorKind>(a.0 as nat),
                Err((e, s)) => address_spec(string@) == Err::<nat, IntErrorKind>(e) && s@ == string@,
            },
    {
        broadcast use vstd::utf8::encode_utf8_decode_utf8;

        let (_, rest) = string.split_at(2);
        proof {
            assert(rest.spec_bytes() == encode_utf8(rest@));
            assert(decode_utf8(encode_utf8(rest@)) == rest@);
        }
        match parse_usize(rest, 16) {
            Ok(u) => Ok(Address(u)),
            Err(e) => Err((e, string.to_owned())),
        }
    }
}

/// A position in a source file.
#[derive(Debug, PartialEq, Eq)]
pub struct SrcPosition {
    pub file: String,
    pub line: usize,
}

/// A breakpoint as gdb describes it.
#[derive(Debug)]
pub struct BreakPoint {
    pub number: BreakPointNumber,
    pub address: Option<Address>,
    pub enabled: bool,
    pub src_pos: Option<SrcPosition>,
}

/// The mathematical form of a [`BreakPoint`].
pub struct BreakPointView {
    pub number: BreakPointNumber,
    pub address: Option<Address>,
    pub enabled: bool,
    pub src_pos: Option<(Seq<char>, usize)>,
}

impl BreakPoint {
    pub open spec fn view(&self) -> BreakPointView {
        BreakPointView {
            number: self.number,
            address: self.address,
            enabled: self.enabled,
            src_pos: match &self.src_pos {
                Some(p) => Some((p.file@, p.line)),
                None => None,
            },
        }
    }
}

/// The text of member `k` of `o`, if it is a text.
pub open spec fn str_member(o: Seq<(Seq<char>, Val)>, k: Seq<char>) -> Option<Seq<char>> {
    match obj_get(o, k) {
        Some(Val::Str(s)) => Some(s),
        _ => None,
    }
}

/// What gdb's description `o` of a breakpoint must hold to be read: a
/// breakpoint number, whether it is enabled, an address (if any) with a
/// two-character prefix, and a line number (if any).
pub open spec fn breakpoint_readable(o: Seq<(Seq<char>, Val)>) -> bool {
    &&& str_member(o, "number"@) matches Some(n) && breakpoint_number_spec(n) is Ok
    &&& str_member(o, "enabled"@) is Some
    &&& str_member(o, "addr"@) matches Some(a) ==> is_char_boundary(encode_utf8(a), 2)
    &&& str_member(o, "line"@) matches Some(l) ==> parse_usize_spec(l, 10) is Ok
}

/// The breakpoint that the description `o` stands for: its number, whether
/// it is enabled (`enabled` is `y`), its address (where `addr` is a
/// readable hexadecimal number) and its source position (where both
/// `fullname` and `line` are given).
pub open spec fn breakpoint_spec(o: Seq<(Seq<char>, Val)>) -> BreakPointView {
    let n = breakpoint_number_spec(str_member(o, "number"@)->0)->Ok_0;
    BreakPointView {
        number: BreakPointNumber {
            major: n.0 as usize,
            minor: match n.1 {
                Some(m) => Some(m as usize),
                None => None,
            },
        },
        enabled: str_member(o, "enabled"@) == Some("y"@),
        address: match str_member(o, "addr"@) {
            Some(a) => match address_spec(a) {
                Ok(v) => Some(Address(v as usize)),
                Err(_) => None,
            },
            None => None,
        },
        src_pos: match (str_member(o, "fullname"@), str_member(o, "line"@)) {
            (Some(f), Some(l)) => Some((f, parse_usize_spec(l, 10)->Ok_0 as usize)),
            _ => None,
        },
    }
}

/// The text member `key` of `o` (see [`str_member`]).
pub fn str_member_exec<'a>(o: &'a [(String, MiValue)], key: &str) -> (r: Option<&'a str>)
    ensures
        match r {
            Some(s) => str_member(entries_view(o@), key@) == Some(s@),
            None => str_member(entries_view(o@), key@) is None,
        },
{
    match object_get(o, key) {
        Some(v) => v.as_str(),
        None => None,
    }
}

/// Whether `o` can be read as a breakpoint (see [`breakpoint_readable`]).
pub fn breakpoint_readable_exec(o: &[(String, MiValue)]) -> (r: bool)
    ensures
        r == breakpoint_readable(entries_view(o@)),
{
    let number_ok = match str_member_exec(o, "number") {
        Some(n) => BreakPointNumber::from_str(n).is_ok(),
        None => false,
    };
    let enabled_ok = str_member_exec(o, "enabled").is_some();
    let addr_ok = match str_member_exec(o, "addr") {
        Some(a) => a.is_char_boundary(2),
        None => true,
    };
    let line_ok = match str_member_exec(o, "line") {
        Some(l) => parse_usize(l, 10).is_ok(),
        None => true,
    };
    number_ok && enabled_ok && addr_ok && line_ok
}

impl BreakPoint {
    /// The breakpoint described by `bkpt` (see [`breakpoint_spec`]).
    pub fn from_json(bkpt: &[(String, MiValue)]) -> (r: Self)
        requires
            breakpoint_readable(entries_view(bkpt@)),
        ensures
            r.view() == breakpoint_spec(entries_view(bkpt@)),
    {
        let number = match str_member_exec(bkpt, "number") {
            Some(s) => match BreakPointNumber::from_str(s) {
                Ok(n) => n,
                Err(_) => BreakPointNumber { major: 0, minor: None },
            },
            None => BreakPointNumber { major: 0, minor: None },
        };
        let enabled = match str_member_exec(bkpt, "enabled") {
            Some(e) => str_eq(e, "y"),
            None => false,
        };
        let address = match str_member_exec(bkpt, "addr") {
            Some(a) => match Address::parse(a) {
                Ok(v) => Some(v),
                Err(_) => None,
            },
            None => None,
        };
        let line = match str_member_exec(bkpt, "line") {
            Some(l) => match parse_usize(l, 10) {
                Ok(v) => Some(v),
                Err(_) => None,
            },
            None => None,
        };
        let src_pos = match (str_member_exec(bkpt, "fullname"), line) {
            (Some(file), Some(line)) => Some(SrcPosition { file: file.to_owned(), line }),
            _ => None,
        };
        BreakPoint { number, address, enabled, src_pos }
    }
}

/// The known breakpoints, by number, and a counter of changes.
pub struct BreakPointSet {
    breakpoints: Vec<BreakPoint>,
    changes: u64,
}

/// No two breakpoints of `v` have the same number.
pub open spec fn numbers_unique(v: Seq<BreakPoint>) -> bool {
    forall|i: int, j: int| 0 <= i < j < v.len() ==> (#[trigger] v[i]).number != (#[trigger] v[j]).number
}

/// The breakpoints of `v` by number.
pub open spec fn bp_map(v: Seq<BreakPoint>) -> Map<BreakPointNumber, BreakPointView> {
    Map::new(
        |k: BreakPointNumber| exists|i: int| 0 <= i < v.len() && v[i].number == k,
        |k: BreakPointNumber| v[choose|i: int| 0 <= i < v.len() && v[i].number == k].view(),
    )
}

impl View for BreakPointSet {
    type V = Map<BreakPointNumber, BreakPointView>;

    closed spec fn view(&self) -> Map<BreakPointNumber, BreakPointView> {
        bp_map(self.breakpoints@)
    }
}

proof fn lemma_bp_map_at(v: Seq<BreakPoint>, i: int)
    requires
        numbers_unique(v),
        0 <= i < v.len(),
    ensures
        bp_map(v).contains_key(v[i].number),
        bp_map(v)[v[i].number] == v[i].view(),
{
    let k = v[i].number;
    assert(exists|j: int| 0 <= j < v.len() && v[j].number == k);
    let j = choose|j: int| 0 <= j < v.len() && v[j].number == k;
    if j != i {
        if j < i {
            assert(v[j].number != v[i].number);
        } else {
            assert(v[i].number != v[j].number);
        }
    }
}

impl BreakPointSet {
    /// The breakpoint numbers are unique.
    #[verifier::type_invariant]
    closed spec fn inv(self) -> bool {
        numbers_unique(self.breakpoints@)
    }

    /// The number of changes so far (wrapping around).
    pub closed spec fn changes_spec(&self) -> u64 {
        self.changes
    }

    /// No breakpoints.
    pub fn new() -> (r: Self)
        ensures
            r@ == Map::<BreakPointNumber, BreakPointView>::empty(),
            r.changes_spec() == 0,
    {
        let r = BreakPointSet { breakpoints: Vec::new(), changes: 0 };
        assert(r@ =~= Map::<BreakPointNumber, BreakPointView>::empty());
        r
    }

    /// The number of changes so far (wrapping around); it changes with each
    /// update or removal.
    pub fn changes(&self) -> (r: u64)
        ensures
            r == self.changes_spec(),
    {
        self.changes
    }

    fn find(&self, n: BreakPointNumber) -> (r: Option<usize>)
        ensures
            match r {
                Some(i) => i < self.breakpoints@.len() && self.breakpoints@[i as int].number == n,
                None => forall|i: int| 0 <= i < self.breakpoints@.len() ==> self.breakpoints@[i].number != n,
            },
    {
        let mut i: usize = 0;
        while i < self.breakpoints.len()
            invariant
                i <= self.breakpoints@.len(),
                forall|j: int| 0 <= j < i ==> self.breakpoints@[j].number != n,
            decreases self.breakpoints@.len() - i,
        {
            if self.breakpoints[i].number == n {
                return Some(i);
            }
            i += 1;
        }
        None
    }

    /// The breakpoint with number `n`, if known.
    pub fn get(&self, n: BreakPointNumber) -> (r: Option<&BreakPoint>)
        ensures
            match r {
                Some(bp) => self@.contains_key(n) && self@[n] == bp.view(),
                None => !self@.contains_key(n),
            },
    {
        proof {
            use_type_invariant(self);
        }
        match self.find(n) {
            Some(i) => {
                proof {
                    lemma_bp_map_at(self.breakpoints@, i as int);
                }
                Some(&self.breakpoints[i])
            },
            None => None,
        }
    }

    /// The numbers of the known breakpoints.
    pub fn numbers(&self) -> (r: Vec<BreakPointNumber>)
        ensures
            r@.to_set() == self@.dom(),
            r@.len() == self@.dom().len(),
    {
        proof {
            use_type_invariant(self);
        }
        let mut r: Vec<BreakPointNumber> = Vec::new();
        let mut i: usize = 0;
        while i < self.breakpoints.len()
            invariant
                i <= self.breakpoints@.len(),
                numbers_unique(self.breakpoints@),
                r@ == self.breakpoints@.take(i as int).map_values(|b: BreakPoint| b.number),
            decreases self.breakpoints@.len() - i,
        {
            r.push(self.breakpoints[i].number);
            proof {
                assert(self.breakpoints@.take(i + 1).map_values(|b: BreakPoint| b.number)
                    =~= self.breakpoints@.take(i as int).map_values(|b: BreakPoint| b.number).push(
                    self.breakpoints@[i as int].number,
                ));
            }
            i += 1;
        }
        proof {
            let v = self.breakpoints@;
            assert(v.take(v.len() as int) =~= v);
            assert(r@.to_set() =~= self@.dom()) by {
                assert forall|k: BreakPointNumber| r@.to_set().contains(k) <==> self@.dom().contains(k) by {
                    if r@.to_set().contains(k) {
                        let j = choose|j: int| 0 <= j < r@.len() && r@[j] == k;
                        assert(v[j].number == k);
                    }
                    if self@.dom().contains(k) {
                        let j = choose|j: int| 0 <= j < v.len() && v[j].number == k;
                        assert(r@[j] == k);
                    }
                }
            }
            assert(r@.no_duplicates()) by {
                assert forall|a: int, b: int| 0 <= a < r@.len() && 0 <= b < r@.len() && a != b implies r@[a] != r@[b] by {
                    if a < b {
                        assert(v[a].number != v[b].number);
                    } else {
                        assert(v[b].number != v[a].number);
                    }
                }
            }
            r@.unique_seq_to_set();
        }
        r
    }

    /// Records `new_bp`, replacing a breakpoint with its number.
    pub fn update_breakpoint(&mut self, new_bp: BreakPoint)
        ensures
            final(self)@ == old(self)@.insert(new_bp.number, new_bp.view()),
            final(self).changes_spec() == old(self).changes_spec().wrapping_add(1),
    {
        proof {
            use_type_invariant(&*self);
        }
        let ghost v = self.breakpoints@;
        let ghost nbv = new_bp.view();
        let n = new_bp.number;
        let found = self.find(n);
        let mut bps: Vec<BreakPoint> = Vec::new();
        std::mem::swap(&mut bps, &mut self.breakpoints);
        match found {
            Some(i) => {
                bps.set(i, new_bp);
                proof {
                    let w = bps@;
                    assert(w =~= v.update(i as int, new_bp));
                    assert forall|a: int, b: int| 0 <= a < b < w.len() implies (#[trigger] w[a]).number != (#[trigger] w[b]).number by {
                        assert(v[a].number != v[b].number);
                    }
                    assert(bp_map(w) =~= bp_map(v).insert(n, nbv)) by {
                        assert forall|k: BreakPointNumber| #[trigger] bp_map(w).contains_key(k) <==> bp_map(v).insert(n, nbv).contains_key(k) by {
                            if bp_map(v).contains_key(k) {
                                let j = choose|j: int| 0 <= j < v.len() && v[j].number == k;
                                assert(w[j].number == k);
                            }
                            if bp_map(w).contains_key(k) {
                                let j = choose|j: int| 0 <= j < w.len() && w[j].number == k;
                                if j != i {
                                    assert(v[j].number == k);
                                }
                            }
                        }
                        assert forall|k: BreakPointNumber| #[trigger] bp_map(w).contains_key(k) implies bp_map(w)[k] == bp_map(v).insert(n, nbv)[k] by {
                            let j = choose|j: int| 0 <= j < w.len() && w[j].number == k;
                            lemma_bp_map_at(w, j);
                            if j != i {
                                assert(v[j] == w[j]);
                                lemma_bp_map_at(v, j);
                            }
                        }
                    }
                }
            },
            None => {
                bps.push(new_bp);
                proof {
                    let w = bps@;
                    assert(w =~= v.push(new_bp));
                    assert forall|a: int, b: int| 0 <= a < b < w.len() implies (#[trigger] w[a]).number != (#[trigger] w[b]).number by {
                        if b < v.len() {
                            assert(v[a].number != v[b].number);
                        }
                    }
                    assert(bp_map(w) =~= bp_map(v).insert(n, nbv)) by {
                        assert forall|k: BreakPointNumber| #[trigger] bp_map(w).contains_key(k) <==> bp_map(v).insert(n, nbv).contains_key(k) by {
                            if bp_map(v).contains_key(k) {
                                let j = choose|j: int| 0 <= j < v.len() && v[j].number == k;
                                assert(w[j].number == k);
                            }
                            if k == n {
                                assert(w[v.len() as int].number == k);
                            }
                            if bp_map(w).contains_key(k) {
                                let j = choose|j: int| 0 <= j < w.len() && w[j].number == k;
                                if j < v.len() {
                                    assert(v[j].number == k);
                                }
                            }
                        }
                        assert forall|k: BreakPointNumber| #[trigger] bp_map(w).contains_key(k) implies bp_map(w)[k] == bp_map(v).insert(n, nbv)[k] by {
                            let j = choose|j: int| 0 <= j < w.len() && w[j].number == k;
                            lemma_bp_map_at(w, j);
                            if j < v.len() {
                                assert(v[j] == w[j]);
                                lemma_bp_map_at(v, j);
                            }
                        }
                    }
                }
            },
        }
        self.breakpoints = bps;
        self.changes = self.changes.wrapping_add(1);
    }

    /// Forgets the breakpoint with number `bp_num`.
    pub fn remove_breakpoint(&mut self, bp_num: BreakPointNumber)
        ensures
            final(self)@ == old(self)@.remove(bp_num),
            final(self).changes_spec() == old(self).changes_spec().wrapping_add(1),
    {
        proof {
            use_type_invariant(&*self);
        }
        let ghost v = self.breakpoints@;
        let found = self.find(bp_num);
        let mut bps: Vec<BreakPoint> = Vec::new();
        std::mem::swap(&mut bps, &mut self.breakpoints);
        if let Some(i) = found {
            bps.remove(i);
            proof {
                let w = bps@;
                assert(w =~= v.remove(i as int));
                assert forall|a: int, b: int| 0 <= a < b < w.len() implies (#[trigger] w[a]).number != (#[trigger] w[b]).number by {
                    let a0 = if a < i { a } else { a + 1 };
                    let b0 = if b < i { b } else { b + 1 };
                    assert(w[a] == v[a0]);
                    assert(w[b] == v[b0]);
                    assert(v[a0].number != v[b0].number);
                }
                assert(bp_map(w) =~= bp_map(v).remove(bp_num)) by {
                    assert forall|k: BreakPointNumber| #[trigger] bp_map(w).contains_key(k) <==> bp_map(v).remove(bp_num).contains_key(k) by {
                        if bp_map(w).contains_key(k) {
                            let j = choose|j: int| 0 <= j < w.len() && w[j].number == k;
                            let j0 = if j < i { j } else { j + 1 };
                            assert(v[j0].number == k);
                            if k == bp_num {
                                if j0 < i {
                                    assert(v[j0].number != v[i as int].number);
                                } else {
                                    assert(v[i as int].number != v[j0].number);
                                }
                            }
                        }
                        if bp_map(v).remove(bp_num).contains_key(k) {
                            let j = choose|j: int| 0 <= j < v.len() && v[j].number == k;
                            assert(j != i);
                            if j < i {
                                assert(w[j].number == k);
                            } else {
                                assert(w[j - 1].number == k);
                            }
                        }
                    }
                    assert forall|k: BreakPointNumber| #[trigger] bp_map(w).contains_key(k) implies bp_map(w)[k] == bp_map(v).remove(bp_num)[k] by {
                        let j = choose|j: int| 0 <= j < w.len() && w[j].number == k;
                        lemma_bp_map_at(w, j);
                        let j0 = if j < i { j } else { j + 1 };
                        assert(w[j] == v[j0]);
                        lemma_bp_map_at(v, j0);
                    }
                }
            }
        } else {
            proof {
                assert(bp_map(v) =~= bp_map(v).remove(bp_num));
            }
        }
        self.breakpoints = bps;
        self.changes = self.changes.wrapping_add(1);
    }
}

/// Recording a breakpoint makes it the one known under its number, and
/// leaves the others as they were.
pub proof fn lemma_update_then_get(m: Map<BreakPointNumber, BreakPointView>, bp: BreakPointView, k: BreakPointNumber)
    ensures
        m.insert(bp.number, bp)[bp.number] == bp,
        k != bp.number ==> (m.insert(bp.number, bp).contains_key(k) == m.contains_key(k) && m.insert(
            bp.number,
            bp,
        )[k] == m[k]),
{
}

/// After forgetting a breakpoint, no breakpoint is known under its number;
/// recording it again and forgetting it gives the same set.
pub proof fn lemma_remove_after_update(m: Map<BreakPointNumber, BreakPointView>, bp: BreakPointView)
    ensures
        !m.remove(bp.number).contains_key(bp.number),
        m.insert(bp.number, bp).remove(bp.number) == m.remove(bp.number),
{
    assert(m.insert(bp.number, bp).remove(bp.number) =~= m.remove(bp.number));
}

/// Why a breakpoint operation failed: gdb is running the program, or gdb
/// refused with the message.
#[derive(Debug, PartialEq, Eq)]
pub enum BreakpointOperationError {
    Busy,
    ExecutionError(String),
}

/// Each element of `a` is a readable description of a breakpoint.
pub open spec fn all_readable(a: Seq<Val>) -> bool {
    forall|i: int| 0 <= i < a.len() ==> (#[trigger] a[i] matches Val::Object(o) && breakpoint_readable(o))
}

/// The breakpoints after recording those described by `a[..k]`, in order.
pub open spec fn update_all(m: Map<BreakPointNumber, BreakPointView>, a: Seq<Val>, k: int) -> Map<BreakPointNumber, BreakPointView>
    decreases k,
{
    if k <= 0 || k > a.len() {
        m
    } else {
        let prev = update_all(m, a, k - 1);
        match a[k - 1] {
            Val::Object(o) => {
                let bp = breakpoint_spec(o);
                prev.insert(bp.number, bp)
            },
            _ => prev,
        }
    }
}

/// What a breakpoint notification must hold to be applied: for a created
/// or modified breakpoint, its description or a list of descriptions under
/// `bkpt`; for a deleted one, its number under `id`.
pub open spec fn event_readable(bp_type: BreakPointEvent, info: Seq<(Seq<char>, Val)>) -> bool {
    match bp_type {
        BreakPointEvent::Deleted => str_member(info, "id"@) matches Some(s) && breakpoint_number_spec(s) is Ok,
        _ => match obj_get(info, "bkpt"@) {
            Some(Val::Object(o)) => breakpoint_readable(o),
            Some(Val::Array(a)) => all_readable(a),
            _ => false,
        },
    }
}

/// The breakpoints after a notification (see [`event_readable`]).
pub open spec fn after_event(m: Map<BreakPointNumber, BreakPointView>, bp_type: BreakPointEvent, info: Seq<(Seq<char>, Val)>) -> Map<BreakPointNumber, BreakPointView> {
    match bp_type {
        BreakPointEvent::Deleted => {
            let n = breakpoint_number_spec(str_member(info, "id"@)->0)->Ok_0;
            m.remove(
                BreakPointNumber {
                    major: n.0 as usize,
                    minor: match n.1 {
                        Some(x) => Some(x as usize),
                        None => None,
                    },
                },
            )
        },
        _ => match obj_get(info, "bkpt"@) {
            Some(Val::Object(o)) => {
                let bp = breakpoint_spec(o);
                m.insert(bp.number, bp)
            },
            Some(Val::Array(a)) => update_all(m, a, a.len() as int),
            _ => m,
        },
    }
}

/// Whether a breakpoint notification can be applied (see
/// [`event_readable`]).
pub fn event_readable_exec(bp_type: BreakPointEvent, info: &[(String, MiValue)]) -> (r: bool)
    ensures
        r == event_readable(bp_type, entries_view(info@)),
{
    match bp_type {
        BreakPointEvent::Deleted => match str_member_exec(info, "id") {
            Some(s) => BreakPointNumber::from_str(s).is_ok(),
            None => false,
        },
        _ => match object_get(info, "bkpt") {
            Some(MiValue::Object(o)) => {
                proof {
                    crate::mi::value::lemma_object_view(*o);
                }
                breakpoint_readable_exec(o.as_slice())
            },
            Some(MiValue::Array(list)) => {
                proof {
                    crate::mi::value::lemma_array_view(*list);
                }
                let ghost a = crate::mi::value::values_view(list@);
                let mut i: usize = 0;
                while i < list.len()
                    invariant
                        i <= list@.len(),
                        a == crate::mi::value::values_view(list@),
                        bp_type != BreakPointEvent::Deleted,
                        obj_get(entries_view(info@), "bkpt"@) == Some(Val::Array(a)),
                        forall|j: int| 0 <= j < i ==> (#[trigger] a[j] matches Val::Object(o) && breakpoint_readable(o)),
                    decreases list@.len() - i,
                {
                    assert(a[i as int] == list@[i as int].view());
                    assert(all_readable(a) ==> (a[i as int] matches Val::Object(o) && breakpoint_readable(o)));
                    match &list[i] {
                        MiValue::Object(o) => {
                            proof {
                                crate::mi::value::lemma_object_view(*o);
                            }
                            if !breakpoint_readable_exec(o.as_slice()) {
                                return false;
                            }
                        },
                        _ => {
                            return false;
                        },
                    }
                    i += 1;
                }
                true
            },
            _ => false,
        },
    }
}

/// How many breakpoint descriptions a readable notification holds: one for
/// a deletion or a single description, else the length of the list.
pub open spec fn event_count(bp_type: BreakPointEvent, info: Seq<(Seq<char>, Val)>) -> nat {
    match bp_type {
        BreakPointEvent::Deleted => 1,
        _ => match obj_get(info, "bkpt"@) {
            Some(Val::Array(a)) => a.len(),
            _ => 1,
        },
    }
}

/// `c` advanced by `n`, wrapping around.
pub open spec fn advanced(c: u64, n: nat) -> u64 {
    ((c + n) % 0x1_0000_0000_0000_0000) as u64
}

proof fn lemma_advanced_step(c: u64, n: nat)
    ensures
        advanced(c, n).wrapping_add(1) == advanced(c, n + 1),
{
    let m: int = 0x1_0000_0000_0000_0000;
    let x = (c + n) % m;
    assert(0 <= x < m);
    if x + 1 == m {
        assert((c + n + 1) % m == 0) by {
            vstd::arithmetic::div_mod::lemma_add_mod_noop(c + n, 1, m);
        }
    } else {
        assert((c + n + 1) % m == x + 1) by {
            vstd::arithmetic::div_mod::lemma_add_mod_noop(c + n, 1, m);
            vstd::arithmetic::div_mod::lemma_small_mod((x + 1) as nat, m as nat);
        }
    }
}

impl BreakPointSet {
    /// Applies gdb's notification that breakpoints were created, modified
    /// or deleted (see [`after_event`]).
    pub fn handle_breakpoint_event(&mut self, bp_type: BreakPointEvent, info: &[(String, MiValue)])
        requires
            event_readable(bp_type, entries_view(info@)),
        ensures
            final(self)@ == after_event(old(self)@, bp_type, entries_view(info@)),
            final(self).changes_spec() == advanced(old(self).changes_spec(), event_count(bp_type, entries_view(info@))),
    {
        let ghost c0 = self.changes;
        proof {
            lemma_advanced_step(c0, 0);
            assert(advanced(c0, 0) == c0) by {
                vstd::arithmetic::div_mod::lemma_small_mod(c0 as nat, 0x1_0000_0000_0000_0000nat);
            }
        }
        match bp_type {
            BreakPointEvent::Deleted => {
                if let Some(s) = str_member_exec(info, "id") {
                    if let Ok(n) = BreakPointNumber::from_str(s) {
                        self.remove_breakpoint(n);
                    }
                }
            },
            _ => match object_get(info, "bkpt") {
                Some(MiValue::Object(o)) => {
                    proof {
                        crate::mi::value::lemma_object_view(*o);
                    }
                    let bp = BreakPoint::from_json(o.as_slice());
                    self.update_breakpoint(bp);
                },
                Some(MiValue::Array(list)) => {
                    proof {
                        crate::mi::value::lemma_array_view(*list);
                    }
                    let ghost a = crate::mi::value::values_view(list@);
                    let ghost m0 = self@;
                    let mut i: usize = 0;
                    while i < list.len()
                        invariant
                            i <= list@.len(),
                            a == crate::mi::value::values_view(list@),
                            all_readable(a),
                            self@ == update_all(m0, a, i as int),
                            self.changes == advanced(c0, i as nat),
                        decreases list@.len() - i,
                    {
                        assert(a[i as int] == list@[i as int].view());
                        match &list[i] {
                            MiValue::Object(o) => {
                                proof {
                                    crate::mi::value::lemma_object_view(*o);
                                }
                                let bp = BreakPoint::from_json(o.as_slice());
                                self.update_breakpoint(bp);
                                proof {
                                    lemma_advanced_step(c0, i as nat);
                                }
                            },
                            _ => {
                                assert(false);
                            },
                        }
                        i += 1;
                    }
                },
                _ => {},
            },
        }
    }
}

/// The breakpoints of `m` whose major number is not that of one of `deleted`.
pub open spec fn without_majors(m: Map<BreakPointNumber, BreakPointView>, deleted: Seq<BreakPointNumber>) -> Map<BreakPointNumber, BreakPointView> {
    m.remove_keys(Set::new(|k: BreakPointNumber| exists|j: int| 0 <= j < deleted.len() && deleted[j].major == k.major))
}

fn major_listed(deleted: &[BreakPointNumber], major: usize) -> (r: bool)
    ensures
        r == exists|j: int| 0 <= j < deleted@.len() && deleted@[j].major == major,
{
    let mut j: usize = 0;
    while j < deleted.len()
        invariant
            j <= deleted@.len(),
            forall|k: int| 0 <= k < j ==> deleted@[k].major != major,
        decreases deleted@.len() - j,
    {
        if deleted[j].major == major {
            return true;
        }
        j += 1;
    }
    false
}

impl BreakPointSet {
    /// Forgets the breakpoints that gdb deleted on a request to delete
    /// `deleted`: all locations of each of their breakpoints (gdb deletes
    /// whole breakpoints by their major number).
    pub fn forget_deleted(&mut self, deleted: &[BreakPointNumber])
        ensures
            final(self)@ == without_majors(old(self)@, deleted@),
    {
        let nums = self.numbers();
        let ghost m0 = self@;
        let mut i: usize = 0;
        assert(m0 =~= m0.remove_keys(Set::new(|k: BreakPointNumber| (exists|j: int| 0 <= j < deleted@.len() && deleted@[j].major == k.major) && exists|j: int| 0 <= j < 0 && #[trigger] nums@[j] == k)));
        while i < nums.len()
            invariant
                i <= nums@.len(),
                nums@.to_set() == m0.dom(),
                self@ == m0.remove_keys(Set::new(|k: BreakPointNumber| (exists|j: int| 0 <= j < deleted@.len() && deleted@[j].major == k.major) && exists|j: int| 0 <= j < i && #[trigger] nums@[j] == k)),
            decreases nums@.len() - i,
        {
            let n = nums[i];
            if major_listed(deleted, n.major) {
                self.remove_breakpoint(n);
            }
            proof {
                let before = Set::new(|k: BreakPointNumber| (exists|j: int| 0 <= j < deleted@.len() && deleted@[j].major == k.major) && exists|j: int| 0 <= j < i && #[trigger] nums@[j] == k);
                let after = Set::new(|k: BreakPointNumber| (exists|j: int| 0 <= j < deleted@.len() && deleted@[j].major == k.major) && exists|j: int| 0 <= j < i + 1 && #[trigger] nums@[j] == k);
                assert forall|k: BreakPointNumber| after.contains(k) <==> (before.contains(k) || (k == n && (exists|j: int| 0 <= j < deleted@.len() && deleted@[j].major == k.major))) by {
                    if after.contains(k) {
                        let j = choose|j: int| 0 <= j < i + 1 && #[trigger] nums@[j] == k;
                        if j < i {
                            assert(before.contains(k));
                        }
                    }
                    if k == n {
                        assert(nums@[i as int] == k);
                    }
                }
                assert(self@ =~= m0.remove_keys(after));
            }
            i += 1;
        }
        proof {
            assert(self@ =~= without_majors(m0, deleted@)) by {
                assert forall|k: BreakPointNumber| m0.dom().contains(k) implies (exists|j: int| 0 <= j < nums@.len() && #[trigger] nums@[j] == k) by {
                    assert(nums@.to_set().contains(k));
                }
            }
        }
    }
}

/// What gdb answered to a command on breakpoints: success, or failure with
/// its `msg` member (`None` where there is no such text; the answer is then
/// reported whole).
pub open spec fn command_failure(class: ResultClass, results: Seq<(Seq<char>, Val)>, r: Result<(), Option<String>>) -> bool {
    match class {
        ResultClass::Error => match str_member(results, "msg"@) {
            Some(m) => r matches Err(Some(t)) && t@ == m,
            None => r matches Err(None),
        },
        _ => r is Ok,
    }
}

impl BreakPointSet {
    /// Applies gdb's answer to the insertion of a breakpoint: on `done`, the
    /// description of the new breakpoint is recorded; on `error`, nothing
    /// changes and the failure is returned.
    pub fn insert_result(&mut self, class: ResultClass, results: &[(String, MiValue)]) -> (r: Result<(), Option<String>>)
        requires
            class == ResultClass::Done || class == ResultClass::Error,
            class == ResultClass::Done ==> event_readable(BreakPointEvent::Created, entries_view(results@)),
        ensures
            command_failure(class, entries_view(results@), r),
            class == ResultClass::Done ==> final(self)@ == after_event(old(self)@, BreakPointEvent::Created, entries_view(results@)),
            class == ResultClass::Done ==> final(self).changes_spec() == advanced(old(self).changes_spec(), event_count(BreakPointEvent::Created, entries_view(results@))),
            class == ResultClass::Error ==> final(self)@ == old(self)@ && final(self).changes_spec() == old(self).changes_spec(),
    {
        match class {
            ResultClass::Done => {
                self.handle_breakpoint_event(BreakPointEvent::Created, results);
                Ok(())
            },
            _ => match str_member_exec(results, "msg") {
                Some(m) => Err(Some(m.to_owned())),
                None => Err(None),
            },
        }
    }

    /// Applies gdb's answer to the deletion of the breakpoints `deleted`: on
    /// `done`, all locations of those breakpoints are forgotten; on `error`,
    /// nothing changes and the failure is returned.
    pub fn delete_result(&mut self, class: ResultClass, results: &[(String, MiValue)], deleted: &[BreakPointNumber]) -> (r: Result<(), Option<String>>)
        requires
            class == ResultClass::Done || class == ResultClass::Error,
        ensures
            command_failure(class, entries_view(results@), r),
            class == ResultClass::Done ==> final(self)@ == without_majors(old(self)@, deleted@),
            class == ResultClass::Error ==> final(self)@ == old(self)@ && final(self).changes_spec() == old(self).changes_spec(),
    {
        match class {
            ResultClass::Done => {
                self.forget_deleted(deleted);
                Ok(())
            },
            _ => match str_member_exec(results, "msg") {
                Some(m) => Err(Some(m.to_owned())),
                None => Err(None),
            },
        }
    }
}

/// The numbers of the known breakpoints whose description satisfies `p`.
pub open spec fn numbers_where(m: Map<BreakPointNumber, BreakPointView>, p: spec_fn(BreakPointView) -> bool) -> Set<BreakPointNumber> {
    Set::new(|k: BreakPointNumber| m.contains_key(k) && p(m[k]))
}

/// Whether a breakpoint is set at address `a`.
pub open spec fn at_address(a: Address) -> spec_fn(BreakPointView) -> bool {
    |b: BreakPointView| b.address == Some(a)
}

/// Whether a breakpoint is set at line `line` of `file`.
pub open spec fn at_line(file: Seq<char>, line: usize) -> spec_fn(BreakPointView) -> bool {
    |b: BreakPointView| b.src_pos == Some((file, line))
}

/// The addresses of the enabled breakpoints of `m` in `start..end`.
pub open spec fn enabled_addresses(m: Map<BreakPointNumber, BreakPointView>, start: Address, end: Address) -> Set<Address> {
    Set::new(|a: Address| exists|k: BreakPointNumber| #[trigger] m.contains_key(k) && m[k].enabled
        && m[k].address == Some(a) && start.0 <= a.0 && a.0 < end.0)
}

/// The lines of the enabled breakpoints of `m` in `file`.
pub open spec fn enabled_lines(m: Map<BreakPointNumber, BreakPointView>, file: Seq<char>) -> Set<usize> {
    Set::new(|l: usize| exists|k: BreakPointNumber| #[trigger] m.contains_key(k) && m[k].enabled
        && m[k].src_pos == Some((file, l)))
}

fn at_address_exec(b: &BreakPoint, a: Address) -> (r: bool)
    ensures
        r == at_address(a)(b.view()),
{
    match b.address {
        Some(x) => x.0 == a.0,
        None => false,
    }
}

fn at_line_exec(b: &BreakPoint, file: &str, line: usize) -> (r: bool)
    ensures
        r == at_line(file@, line)(b.view()),
{
    match &b.src_pos {
        Some(pos) => pos.line == line && str_eq(pos.file.as_str(), file),
        None => false,
    }
}

proof fn lemma_push_contains<T>(s: Seq<T>, x: T, k: T)
    ensures
        s.push(x).contains(k) <==> (s.contains(k) || k == x),
{
    if s.push(x).contains(k) {
        let i = choose|i: int| 0 <= i < s.push(x).len() && s.push(x)[i] == k;
        if i < s.len() {
            assert(s[i] == k);
        }
    }
    if s.contains(k) {
        let i = choose|i: int| 0 <= i < s.len() && s[i] == k;
        assert(s.push(x)[i] == k);
    }
    if k == x {
        assert(s.push(x)[s.len() as int] == k);
    }
}

proof fn lemma_entry(v: Seq<BreakPoint>, k: BreakPointNumber) -> (j: int)
    requires
        numbers_unique(v),
        bp_map(v).contains_key(k),
    ensures
        0 <= j < v.len(),
        v[j].number == k,
        bp_map(v)[k] == v[j].view(),
{
    let j = choose|j: int| 0 <= j < v.len() && v[j].number == k;
    lemma_bp_map_at(v, j);
    j
}

impl BreakPointSet {
    /// The numbers of the breakpoints set at address `a`.
    pub fn numbers_at_address(&self, a: Address) -> (r: Vec<BreakPointNumber>)
        ensures
            r@.to_set() == numbers_where(self@, at_address(a)),
    {
        proof {
            use_type_invariant(self);
        }
        let v = &self.breakpoints;
        let mut r: Vec<BreakPointNumber> = Vec::new();
        let mut i: usize = 0;
        while i < v.len()
            invariant
                i <= v@.len(),
                v@ == self.breakpoints@,
                forall|k: BreakPointNumber| r@.contains(k) <==> exists|j: int| 0 <= j < i && v@[j].number == k
                    && #[trigger] at_address(a)(v@[j].view()),
            decreases v@.len() - i,
        {
            let ghost r0 = r@;
            let c = at_address_exec(&v[i], a);
            if c {
                r.push(v[i].number);
            }
            proof {
                assert forall|k: BreakPointNumber| r@.contains(k) <==> exists|j: int| 0 <= j < i + 1 && v@[j].number == k
                    && #[trigger] at_address(a)(v@[j].view()) by {
                    if c {
                        lemma_push_contains(r0, v@[i as int].number, k);
                    }
                    assert(at_address(a)(v@[i as int].view()) == c);
                    if exists|j: int| 0 <= j < i + 1 && v@[j].number == k && #[trigger] at_address(a)(v@[j].view()) {
                        let j = choose|j: int| 0 <= j < i + 1 && v@[j].number == k && #[trigger] at_address(a)(v@[j].view());
                        if j < i {
                            assert(r0.contains(k));
                        }
                    }
                }
            }
            i += 1;
        }
        proof {
            assert forall|k: BreakPointNumber| r@.to_set().contains(k) <==> numbers_where(self@, at_address(a)).contains(k) by {
                if r@.to_set().contains(k) {
                    assert(r@.contains(k));
                    let j = choose|j: int| 0 <= j < v@.len() && v@[j].number == k && #[trigger] at_address(a)(v@[j].view());
                    lemma_bp_map_at(v@, j);
                }
                if numbers_where(self@, at_address(a)).contains(k) {
                    let j = lemma_entry(v@, k);
                    assert(at_address(a)(v@[j].view()));
                }
            }
            assert(r@.to_set() =~= numbers_where(self@, at_address(a)));
        }
        r
    }

    /// The numbers of the breakpoints set at line `line` of `file`.
    pub fn numbers_at_line(&self, file: &str, line: usize) -> (r: Vec<BreakPointNumber>)
        ensures
            r@.to_set() == numbers_where(self@, at_line(file@, line)),
    {
        proof {
            use_type_invariant(self);
        }
        let v = &self.breakpoints;
        let mut r: Vec<BreakPointNumber> = Vec::new();
        let mut i: usize = 0;
        while i < v.len()
            invariant
                i <= v@.len(),
                v@ == self.breakpoints@,
                forall|k: BreakPointNumber| r@.contains(k) <==> exists|j: int| 0 <= j < i && v@[j].number == k
                    && #[trigger] at_line(file@, line)(v@[j].view()),
            decreases v@.len() - i,
        {
            let ghost r0 = r@;
            let c = at_line_exec(&v[i], file, line);
            if c {
                r.push(v[i].number);
            }
            proof {
                assert forall|k: BreakPointNumber| r@.contains(k) <==> exists|j: int| 0 <= j < i + 1 && v@[j].number == k
                    && #[trigger] at_line(file@, line)(v@[j].view()) by {
                    if c {
                        lemma_push_contains(r0, v@[i as int].number, k);
                    }
                    assert(at_line(file@, line)(v@[i as int].view()) == c);
                    if exists|j: int| 0 <= j < i + 1 && v@[j].number == k && #[trigger] at_line(file@, line)(v@[j].view()) {
                        let j = choose|j: int| 0 <= j < i + 1 && v@[j].number == k && #[trigger] at_line(file@, line)(v@[j].view());
                        if j < i {
                            assert(r0.contains(k));
                        }
                    }
                }
            }
            i += 1;
        }
        proof {
            assert forall|k: BreakPointNumber| r@.to_set().contains(k) <==> numbers_where(self@, at_line(file@, line)).contains(k) by {
                if r@.to_set().contains(k) {
                    assert(r@.contains(k));
                    let j = choose|j: int| 0 <= j < v@.len() && v@[j].number == k && #[trigger] at_line(file@, line)(v@[j].view());
                    lemma_bp_map_at(v@, j);
                }
                if numbers_where(self@, at_line(file@, line)).contains(k) {
                    let j = lemma_entry(v@, k);
                    assert(at_line(file@, line)(v@[j].view()));
                }
            }
            assert(r@.to_set() =~= numbers_where(self@, at_line(file@, line)));
        }
        r
    }

    /// The addresses of the enabled breakpoints in `start..end`.
    pub fn enabled_addresses_in(&self, start: Address, end: Address) -> (r: Vec<Address>)
        ensures
            r@.to_set() == enabled_addresses(self@, start, end),
    {
        proof {
            use_type_invariant(self);
        }
        let v = &self.breakpoints;
        let mut r: Vec<Address> = Vec::new();
        let mut i: usize = 0;
        while i < v.len()
            invariant
                i <= v@.len(),
                v@ == self.breakpoints@,
                forall|a: Address| r@.contains(a) <==> exists|j: int| 0 <= j < i && #[trigger] v@[j].enabled
                    && v@[j].address == Some(a) && start.0 <= a.0 && a.0 < end.0,
            decreases v@.len() - i,
        {
            let ghost r0 = r@;
            if v[i].enabled {
                if let Some(x) = v[i].address {
                    if start.0 <= x.0 && x.0 < end.0 {
                        r.push(x);
                    }
                }
            }
            proof {
                assert forall|a: Address| r@.contains(a) <==> exists|j: int| 0 <= j < i + 1 && #[trigger] v@[j].enabled
                    && v@[j].address == Some(a) && start.0 <= a.0 && a.0 < end.0 by {
                    let b = v@[i as int];
                    if b.enabled && b.address is Some && start.0 <= (b.address->0).0 && (b.address->0).0 < end.0 {
                        lemma_push_contains(r0, b.address->0, a);
                    } else {
                        assert(r@ == r0);
                    }
                    if exists|j: int| 0 <= j < i + 1 && #[trigger] v@[j].enabled && v@[j].address == Some(a) && start.0 <= a.0 && a.0 < end.0 {
                        let j = choose|j: int| 0 <= j < i + 1 && #[trigger] v@[j].enabled && v@[j].address == Some(a) && start.0 <= a.0 && a.0 < end.0;
                        if j < i {
                            assert(r0.contains(a));
                        }
                    }
                    if r0.contains(a) {
                        let j = choose|j: int| 0 <= j < i && #[trigger] v@[j].enabled && v@[j].address == Some(a) && start.0 <= a.0 && a.0 < end.0;
                        assert(0 <= j < i + 1);
                    }
                }
            }
            i += 1;
        }
        proof {
            assert forall|a: Address| r@.to_set().contains(a) <==> enabled_addresses(self@, start, end).contains(a) by {
                if r@.to_set().contains(a) {
                    assert(r@.contains(a));
                    let j = choose|j: int| 0 <= j < v@.len() && #[trigger] v@[j].enabled && v@[j].address == Some(a) && start.0 <= a.0 && a.0 < end.0;
                    lemma_bp_map_at(v@, j);
                    assert(self@.contains_key(v@[j].number));
                }
                if enabled_addresses(self@, start, end).contains(a) {
                    let k = choose|k: BreakPointNumber| #[trigger] self@.contains_key(k) && self@[k].enabled
                        && self@[k].address == Some(a) && start.0 <= a.0 && a.0 < end.0;
                    let j = lemma_entry(v@, k);
                    assert(v@[j].enabled);
                }
            }
            assert(r@.to_set() =~= enabled_addresses(self@, start, end));
        }
        r
    }

    /// The lines of the enabled breakpoints in `file`.
    pub fn enabled_lines_in(&self, file: &str) -> (r: Vec<usize>)
        ensures
            r@.to_set() == enabled_lines(self@, file@),
    {
        proof {
            use_type_invariant(self);
        }
        let v = &self.breakpoints;
        let mut r: Vec<usize> = Vec::new();
        let mut i: usize = 0;
        while i < v.len()
            invariant
                i <= v@.len(),
                v@ == self.breakpoints@,
                forall|l: usize| r@.contains(l) <==> exists|j: int| 0 <= j < i && #[trigger] v@[j].enabled
                    && v@[j].view().src_pos == Some((file@, l)),
            decreases v@.len() - i,
        {
            let ghost r0 = r@;
            if v[i].enabled {
                if let Some(pos) = &v[i].src_pos {
                    if str_eq(pos.file.as_str(), file) {
                        r.push(pos.line);
                    }
                }
            }
            proof {
                assert forall|l: usize| r@.contains(l) <==> exists|j: int| 0 <= j < i + 1 && #[trigger] v@[j].enabled
                    && v@[j].view().src_pos == Some((file@, l)) by {
                    let b = v@[i as int].view();
                    if b.enabled && b.src_pos is Some && (b.src_pos->0).0 == file@ {
                        lemma_push_contains(r0, (b.src_pos->0).1, l);
                    } else {
                        assert(r@ == r0);
                    }
                    if exists|j: int| 0 <= j < i + 1 && #[trigger] v@[j].enabled && v@[j].view().src_pos == Some((file@, l)) {
                        let j = choose|j: int| 0 <= j < i + 1 && #[trigger] v@[j].enabled && v@[j].view().src_pos == Some((file@, l));
                        if j < i {
                            assert(r0.contains(l));
                        }
                    }
                    if r0.contains(l) {
                        let j = choose|j: int| 0 <= j < i && #[trigger] v@[j].enabled && v@[j].view().src_pos == Some((file@, l));
                        assert(0 <= j < i + 1);
                    }
                }
            }
            i += 1;
        }
        proof {
            assert forall|l: usize| r@.to_set().contains(l) <==> enabled_lines(self@, file@).contains(l) by {
                if r@.to_set().contains(l) {
                    assert(r@.contains(l));
                    let j = choose|j: int| 0 <= j < v@.len() && #[trigger] v@[j].enabled && v@[j].view().src_pos == Some((file@, l));
                    lemma_bp_map_at(v@, j);
                    assert(self@.contains_key(v@[j].number));
                }
                if enabled_lines(self@, file@).contains(l) {
                    let k = choose|k: BreakPointNumber| #[trigger] self@.contains_key(k) && self@[k].enabled
                        && self@[k].src_pos == Some((file@, l));
                    let j = lemma_entry(v@, k);
                    assert(v@[j].enabled);
                }
            }
            assert(r@.to_set() =~= enabled_lines(self@, file@));
        }
        r
    }
}

} // verus!
