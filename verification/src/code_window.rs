//! The decisions of the code window: which view (source, assembly or both)
//! is shown, what a line of it is labelled with, which breakpoints a
//! toggle removes, and which stack frame a step up or down selects.
use vstd::prelude::*;
use crate::breakpoints::{
    address_spec, str_member, str_member_exec,
    at_address, at_line, enabled_addresses, enabled_lines, numbers_where, Address, BreakPointSet,
    BreakpointOperationError, SrcPosition,
};
use crate::mi::commands::BreakPointNumber;
use crate::mi::value::{entries_view, member_text, member_text_exec, str_eq, MiValue, Val};
use vstd::string::StringSliceAdditionalSpecFns;
use vstd::utf8::{encode_utf8, is_char_boundary};
use crate::numbers::{parse_usize, parse_usize_spec};
use crate::text::{decimal, decimal_string, push_char, push_chars, push_str, radix_chars, radix_digits};

verus! {

/// What the code window prefers to show.
pub enum DisplayMode {
    Source,
    Assembly,
    SideBySide,
    Message(String),
}

/// The mathematical form of a [`DisplayMode`].
pub enum DisplayModeView {
    Source,
    Assembly,
    SideBySide,
    Message(Seq<char>),
}

impl View for DisplayMode {
    type V = DisplayModeView;

    open spec fn view(&self) -> DisplayModeView {
        match self {
            DisplayMode::Source => DisplayModeView::Source,
            DisplayMode::Assembly => DisplayModeView::Assembly,
            DisplayMode::SideBySide => DisplayModeView::SideBySide,
            DisplayMode::Message(m) => DisplayModeView::Message(m@),
        }
    }
}

/// Whether the source of the current frame can be shown.
pub enum SrcContentState {
    Available,
    Unavailable,
    NotYetLoaded(String),
}

/// Whether the assembly of the current frame can be shown.
pub enum AsmContentState {
    Available,
    Unavailable,
    NotYetLoadedFile(String, usize),
    NotYetLoadedAddr(Address, Address),
}

/// The view that can be shown: the preferred one where its content is
/// available, else the other one, else a message.
pub open spec fn available_spec(preferred: DisplayModeView, src: bool, assembly: bool) -> DisplayModeView {
    let none = DisplayModeView::Message("Neither source nor assembly available!"@);
    match preferred {
        DisplayModeView::Message(m) => DisplayModeView::Message(m),
        DisplayModeView::Source => if src {
            DisplayModeView::Source
        } else if assembly {
            DisplayModeView::Assembly
        } else {
            none
        },
        DisplayModeView::Assembly => if assembly {
            DisplayModeView::Assembly
        } else if src {
            DisplayModeView::Source
        } else {
            none
        },
        DisplayModeView::SideBySide => if src && assembly {
            DisplayModeView::SideBySide
        } else if src {
            DisplayModeView::Source
        } else if assembly {
            DisplayModeView::Assembly
        } else {
            none
        },
    }
}

/// The mode that a toggle prefers next: from assembly to source, from source
/// to both side by side, from both to assembly; a message stays.
pub open spec fn next_mode_spec(m: DisplayModeView) -> DisplayModeView {
    match m {
        DisplayModeView::Assembly => DisplayModeView::Source,
        DisplayModeView::SideBySide => DisplayModeView::Assembly,
        DisplayModeView::Source => DisplayModeView::SideBySide,
        DisplayModeView::Message(t) => DisplayModeView::Message(t),
    }
}

fn copy_mode(m: &DisplayMode) -> (r: DisplayMode)
    ensures
        r@ == m@,
{
    match m {
        DisplayMode::Source => DisplayMode::Source,
        DisplayMode::Assembly => DisplayMode::Assembly,
        DisplayMode::SideBySide => DisplayMode::SideBySide,
        DisplayMode::Message(t) => DisplayMode::Message(t.clone()),
    }
}

fn same_mode(a: &DisplayMode, b: &DisplayMode) -> (r: bool)
    ensures
        r == (a@ == b@),
{
    match (a, b) {
        (DisplayMode::Source, DisplayMode::Source) => true,
        (DisplayMode::Assembly, DisplayMode::Assembly) => true,
        (DisplayMode::SideBySide, DisplayMode::SideBySide) => true,
        (DisplayMode::Message(x), DisplayMode::Message(y)) => str_eq(x.as_str(), y.as_str()),
        _ => false,
    }
}

/// A content of the code window.
#[derive(Clone, Copy, PartialEq, Eq, Debug, Structural)]
pub enum ContentKind {
    Source,
    Assembly,
}

/// The state of the code window: the preferred view and whether its
/// contents are available.
pub struct CodeWindowState {
    pub preferred_mode: DisplayMode,
    pub src_state: SrcContentState,
    pub asm_state: AsmContentState,
}

impl CodeWindowState {
    /// Whether the source is available.
    pub open spec fn src_available(&self) -> bool {
        self.src_state is Available
    }

    /// Whether the assembly is available.
    pub open spec fn asm_available(&self) -> bool {
        self.asm_state is Available
    }

    /// A window that shows `welcome`, with no content available.
    pub fn new(welcome: String) -> (r: Self)
        ensures
            r.preferred_mode@ == DisplayModeView::Message(welcome@),
            r.src_state is Unavailable,
            r.asm_state is Unavailable,
    {
        CodeWindowState {
            preferred_mode: DisplayMode::Message(welcome),
            src_state: SrcContentState::Unavailable,
            asm_state: AsmContentState::Unavailable,
        }
    }

    /// The view that can be shown now (see [`available_spec`]).
    pub fn available_display_mode(&self) -> (r: DisplayMode)
        ensures
            r@ == available_spec(self.preferred_mode@, self.src_available(), self.asm_available()),
    {
        let src = match self.src_state {
            SrcContentState::Available => true,
            _ => false,
        };
        let assembly = match self.asm_state {
            AsmContentState::Available => true,
            _ => false,
        };
        match &self.preferred_mode {
            DisplayMode::Message(m) => DisplayMode::Message(m.clone()),
            DisplayMode::Source => {
                if src {
                    DisplayMode::Source
                } else if assembly {
                    DisplayMode::Assembly
                } else {
                    DisplayMode::Message("Neither source nor assembly available!".to_owned())
                }
            },
            DisplayMode::Assembly => {
                if assembly {
                    DisplayMode::Assembly
                } else if src {
                    DisplayMode::Source
                } else {
                    DisplayMode::Message("Neither source nor assembly available!".to_owned())
                }
            },
            DisplayMode::SideBySide => {
                if src && assembly {
                    DisplayMode::SideBySide
                } else if src {
                    DisplayMode::Source
                } else if assembly {
                    DisplayMode::Assembly
                } else {
                    DisplayMode::Message("Neither source nor assembly available!".to_owned())
                }
            },
        }
    }

    /// Prefers the next mode (see [`next_mode_spec`]); returns the mode
    /// preferred before and whether the assembly is to follow the source
    /// (on the step from source to side by side).
    pub fn begin_toggle(&mut self) -> (r: (DisplayMode, bool))
        ensures
            r.0@ == old(self).preferred_mode@,
            r.1 == (old(self).preferred_mode@ == DisplayModeView::Source),
            final(self).preferred_mode@ == next_mode_spec(old(self).preferred_mode@),
            final(self).src_state == old(self).src_state,
            final(self).asm_state == old(self).asm_state,
    {
        let prev = copy_mode(&self.preferred_mode);
        let sync = match &self.preferred_mode {
            DisplayMode::Source => true,
            _ => false,
        };
        self.preferred_mode = match &prev {
            DisplayMode::Assembly => DisplayMode::Source,
            DisplayMode::SideBySide => DisplayMode::Assembly,
            DisplayMode::Source => DisplayMode::SideBySide,
            DisplayMode::Message(m) => DisplayMode::Message(m.clone()),
        };
        (prev, sync)
    }

    /// Ends a toggle once the contents were loaded: where the view that can
    /// be shown is still the one preferred before, that one is preferred
    /// again. Returns whether the toggle took effect.
    pub fn end_toggle(&mut self, prev: DisplayMode) -> (r: bool)
        ensures
            r == (available_spec(old(self).preferred_mode@, old(self).src_available(), old(self).asm_available())
                != prev@),
            final(self).preferred_mode@ == (if r {
                old(self).preferred_mode@
            } else {
                prev@
            }),
            final(self).src_state == old(self).src_state,
            final(self).asm_state == old(self).asm_state,
    {
        let shown = self.available_display_mode();
        if same_mode(&shown, &prev) {
            self.preferred_mode = prev;
            false
        } else {
            true
        }
    }

    /// The contents to load for the preferred mode, in order.
    pub fn primary_loads(&self) -> (r: Vec<ContentKind>)
        ensures
            r@ == (match self.preferred_mode@ {
                DisplayModeView::SideBySide => seq![ContentKind::Source, ContentKind::Assembly],
                DisplayModeView::Assembly => seq![ContentKind::Assembly],
                DisplayModeView::Source => seq![ContentKind::Source],
                DisplayModeView::Message(_) => Seq::<ContentKind>::empty(),
            }),
    {
        let mut r = Vec::new();
        match self.preferred_mode {
            DisplayMode::SideBySide => {
                r.push(ContentKind::Source);
                r.push(ContentKind::Assembly);
            },
            DisplayMode::Assembly => r.push(ContentKind::Assembly),
            DisplayMode::Source => r.push(ContentKind::Source),
            DisplayMode::Message(_) => {},
        }
        proof {
            assert(r@ =~= (match self.preferred_mode@ {
                DisplayModeView::SideBySide => seq![ContentKind::Source, ContentKind::Assembly],
                DisplayModeView::Assembly => seq![ContentKind::Assembly],
                DisplayModeView::Source => seq![ContentKind::Source],
                DisplayModeView::Message(_) => Seq::<ContentKind>::empty(),
            }));
        }
        r
    }

    /// The content to load after the primary ones: the other one, where the
    /// preferred single view turned out unavailable.
    pub fn fallback_load(&self) -> (r: Option<ContentKind>)
        ensures
            r == (match self.preferred_mode@ {
                DisplayModeView::Assembly => if self.asm_state is Unavailable {
                    Some(ContentKind::Source)
                } else {
                    None
                },
                DisplayModeView::Source => if self.src_state is Unavailable {
                    Some(ContentKind::Assembly)
                } else {
                    None
                },
                _ => None,
            }),
    {
        match (&self.preferred_mode, &self.src_state, &self.asm_state) {
            (DisplayMode::Assembly, _, AsmContentState::Unavailable) => Some(ContentKind::Source),
            (DisplayMode::Source, SrcContentState::Unavailable, _) => Some(ContentKind::Assembly),
            _ => None,
        }
    }

    /// Records the outcome of an attempt to load a content that was not yet
    /// loaded: it is available if the attempt succeeded, else unavailable.
    /// A content in another state stays as it is.
    pub fn loaded(&mut self, kind: ContentKind, ok: bool)
        ensures
            final(self).preferred_mode == old(self).preferred_mode,
            kind == ContentKind::Source ==> final(self).asm_state == old(self).asm_state && (
            if old(self).src_state is NotYetLoaded {
                if ok {
                    final(self).src_state is Available
                } else {
                    final(self).src_state is Unavailable
                }
            } else {
                final(self).src_state == old(self).src_state
            }),
            kind == ContentKind::Assembly ==> final(self).src_state == old(self).src_state && (
            if old(self).asm_state is NotYetLoadedFile || old(self).asm_state is NotYetLoadedAddr {
                if ok {
                    final(self).asm_state is Available
                } else {
                    final(self).asm_state is Unavailable
                }
            } else {
                final(self).asm_state == old(self).asm_state
            }),
    {
        match kind {
            ContentKind::Source => {
                if let SrcContentState::NotYetLoaded(_) = self.src_state {
                    self.src_state = if ok {
                        SrcContentState::Available
                    } else {
                        SrcContentState::Unavailable
                    };
                }
            },
            ContentKind::Assembly => {
                let pending = match self.asm_state {
                    AsmContentState::NotYetLoadedFile(_, _) => true,
                    AsmContentState::NotYetLoadedAddr(_, _) => true,
                    _ => false,
                };
                if pending {
                    self.asm_state = if ok {
                        AsmContentState::Available
                    } else {
                        AsmContentState::Unavailable
                    };
                }
            },
        }
    }
}

/// Where a frame that gdb describes is: its source file (`fullname`), its
/// line (a decimal `line`) and its address (a hexadecimal `addr`), as far as
/// they are given and readable.
pub struct FrameLocation {
    pub file: Option<String>,
    pub line: Option<usize>,
    pub address: Option<Address>,
}

/// The location of the frame `frame` (see [`FrameLocation`]).
pub open spec fn frame_location_spec(frame: Seq<(Seq<char>, Val)>, loc: FrameLocation) -> bool {
    &&& opt_text(loc.file) == str_member(frame, "fullname"@)
    &&& loc.line == (match str_member(frame, "line"@) {
        Some(l) => match parse_usize_spec(l, 10) {
            Ok(n) => Some(n as usize),
            Err(_) => None,
        },
        None => None,
    })
    &&& loc.address == (match str_member(frame, "addr"@) {
        Some(a) => if is_char_boundary(encode_utf8(a), 2) {
            match address_spec(a) {
                Ok(v) => Some(Address(v as usize)),
                Err(_) => None,
            }
        } else {
            None
        },
        None => None,
    })
}

pub open spec fn opt_text(o: Option<String>) -> Option<Seq<char>> {
    match o {
        Some(s) => Some(s@),
        None => None,
    }
}

/// Reads where the frame `frame` is (see [`frame_location_spec`]).
pub fn frame_location(frame: &[(String, MiValue)]) -> (r: FrameLocation)
    ensures
        frame_location_spec(entries_view(frame@), r),
{
    let file = match str_member_exec(frame, "fullname") {
        Some(f) => Some(f.to_owned()),
        None => None,
    };
    let line = match str_member_exec(frame, "line") {
        Some(l) => match parse_usize(l, 10) {
            Ok(n) => Some(n),
            Err(_) => None,
        },
        None => None,
    };
    let address = match str_member_exec(frame, "addr") {
        Some(a) => {
            if a.is_char_boundary(2) {
                match Address::parse(a) {
                    Ok(v) => Some(v),
                    Err(_) => None,
                }
            } else {
                None
            }
        },
        None => None,
    };
    FrameLocation { file, line, address }
}

impl CodeWindowState {
    /// A frame is to be shown: a message gives way to the source view, and
    /// both contents count as unavailable until they are found.
    pub fn begin_frame(&mut self)
        ensures
            final(self).preferred_mode@ == (match old(self).preferred_mode@ {
                DisplayModeView::Message(_) => DisplayModeView::Source,
                m => m,
            }),
            final(self).src_state is Unavailable,
            final(self).asm_state is Unavailable,
    {
        if let DisplayMode::Message(_) = self.preferred_mode {
            self.preferred_mode = DisplayMode::Source;
        }
        self.src_state = SrcContentState::Unavailable;
        self.asm_state = AsmContentState::Unavailable;
    }

    /// The frame is in the source file `path`: the source is available if
    /// that file is shown already (`shown_file`), else it is to be loaded.
    pub fn frame_in_file(&mut self, path: String, shown_file: Option<&str>)
        ensures
            (match shown_file {
                Some(f) => f@ == path@,
                None => false,
            }) ==> final(self).src_state is Available,
            !(match shown_file {
                Some(f) => f@ == path@,
                None => false,
            }) ==> final(self).src_state == SrcContentState::NotYetLoaded(path),
            final(self).preferred_mode == old(self).preferred_mode,
            final(self).asm_state == old(self).asm_state,
    {
        let same = match shown_file {
            Some(f) => str_eq(f, path.as_str()),
            None => false,
        };
        self.src_state = if same {
            SrcContentState::Available
        } else {
            SrcContentState::NotYetLoaded(path)
        };
    }

    /// The frame is at `line` of `path`: the assembly is available if the
    /// assembly view has a line for it, else it is to be disassembled from
    /// the file.
    pub fn frame_at_line(&mut self, path: String, line: usize, assembly_has_line: bool)
        ensures
            assembly_has_line ==> final(self).asm_state is Available,
            !assembly_has_line ==> final(self).asm_state == AsmContentState::NotYetLoadedFile(path, line),
            final(self).preferred_mode == old(self).preferred_mode,
            final(self).src_state == old(self).src_state,
    {
        self.asm_state = if assembly_has_line {
            AsmContentState::Available
        } else {
            AsmContentState::NotYetLoadedFile(path, line)
        };
    }

    /// Where the assembly is still unavailable after the file was tried:
    /// it is available if the assembly view has the frame's address, else
    /// the range found around the address is to be disassembled; without
    /// one it stays unavailable. Returns whether a range is wanted (the
    /// caller tries to find one when the address is not shown).
    pub fn frame_at_address(&mut self, address_shown: bool, range: Option<(Address, Address)>)
        ensures
            !(old(self).asm_state is Unavailable) ==> final(self).asm_state == old(self).asm_state,
            old(self).asm_state is Unavailable && address_shown ==> final(self).asm_state is Available,
            old(self).asm_state is Unavailable && !address_shown ==> final(self).asm_state == (match range {
                Some((b, e)) => AsmContentState::NotYetLoadedAddr(b, e),
                None => AsmContentState::Unavailable,
            }),
            final(self).preferred_mode == old(self).preferred_mode,
            final(self).src_state == old(self).src_state,
    {
        if let AsmContentState::Unavailable = self.asm_state {
            if address_shown {
                self.asm_state = AsmContentState::Available;
            } else if let Some((b, e)) = range {
                self.asm_state = AsmContentState::NotYetLoadedAddr(b, e);
            }
        }
    }
}

/// The address that an instruction of gdb's disassembly names under
/// `address`, if it is readable.
pub open spec fn instruction_address(v: Val) -> Option<Address> {
    match member_text(v, "address"@) {
        Some(a) => if is_char_boundary(encode_utf8(a), 2) {
            match address_spec(a) {
                Ok(n) => Some(Address(n as usize)),
                Err(_) => None,
            }
        } else {
            None
        },
        None => None,
    }
}

fn instruction_address_exec(v: &MiValue) -> (r: Option<Address>)
    ensures
        r == instruction_address(v.view()),
{
    match member_text_exec(v, "address") {
        Some(a) => {
            if a.is_char_boundary(2) {
                match Address::parse(a) {
                    Ok(n) => Some(n),
                    Err(_) => None,
                }
            } else {
                None
            }
        },
        None => None,
    }
}

/// What a block of disassembled instructions says of the end of the
/// function `func_name`: the block does not tell (too short, or an address
/// is unreadable); the function goes on past the block, whose second to last
/// instruction is at the address given; or the function ends at the address
/// given, that of the first instruction of another function.
pub enum BlockStep {
    Fail,
    Continue(Address),
    Done(Address),
}

/// The index of the first instruction of `lines` that is not in the
/// function `name`, from `i` on.
pub open spec fn first_other(lines: Seq<Val>, name: Seq<char>, i: int) -> int
    decreases lines.len() - i,
{
    if i < 0 || i >= lines.len() {
        lines.len() as int
    } else if member_text(lines[i], "func-name"@) != Some(name) {
        i
    } else {
        first_other(lines, name, i + 1)
    }
}

/// What the block `lines` says of the end of `name` (see [`BlockStep`]).
pub open spec fn block_step_spec(lines: Seq<Val>, name: Seq<char>, r: BlockStep) -> bool {
    if lines.len() < 2 {
        r is Fail
    } else if member_text(lines[lines.len() - 2], "func-name"@) == Some(name) {
        match instruction_address(lines[lines.len() - 2]) {
            Some(a) => r == BlockStep::Continue(a),
            None => r is Fail,
        }
    } else {
        let k = first_other(lines, name, 0);
        match instruction_address(lines[k]) {
            Some(a) => r == BlockStep::Done(a),
            None => r is Fail,
        }
    }
}

proof fn lemma_first_other_bound(lines: Seq<Val>, name: Seq<char>, i: int, j: int)
    requires
        0 <= i <= j < lines.len(),
        member_text(lines[j], "func-name"@) != Some(name),
    ensures
        i <= first_other(lines, name, i) <= j,
    decreases j - i,
{
    if member_text(lines[i], "func-name"@) == Some(name) {
        lemma_first_other_bound(lines, name, i + 1, j);
    }
}

/// What a block of disassembled instructions says of the end of the
/// function `name` (see [`block_step_spec`]).
pub fn block_step(lines: &[MiValue], name: &str) -> (r: BlockStep)
    ensures
        block_step_spec(crate::mi::value::values_view(lines@), name@, r),
{
    let ghost lv = crate::mi::value::values_view(lines@);
    let n = lines.len();
    if n < 2 {
        return BlockStep::Fail;
    }
    assert(lv[n - 2] == lines@[n - 2].view());
    let pen = &lines[n - 2];
    let same = match member_text_exec(pen, "func-name") {
        Some(f) => str_eq(f, name),
        None => false,
    };
    if same {
        return match instruction_address_exec(pen) {
            Some(a) => BlockStep::Continue(a),
            None => BlockStep::Fail,
        };
    }
    proof {
        lemma_first_other_bound(lv, name@, 0, n - 2);
    }
    let mut i: usize = 0;
    loop
        invariant
            n == lines@.len(),
            n >= 2,
            lv == crate::mi::value::values_view(lines@),
            i <= n - 2,
            member_text(lv[n - 2], "func-name"@) != Some(name@),
            first_other(lv, name@, 0) == first_other(lv, name@, i as int),
            first_other(lv, name@, i as int) <= n - 2,
        decreases n - i,
    {
        assert(lv[i as int] == lines@[i as int].view());
        let other = match member_text_exec(&lines[i], "func-name") {
            Some(f) => !str_eq(f, name),
            None => true,
        };
        if other {
            assert(first_other(lv, name@, i as int) == i);
            return match instruction_address_exec(&lines[i]) {
                Some(a) => BlockStep::Done(a),
                None => BlockStep::Fail,
            };
        }
        i += 1;
    }
}

/// The address of the second to last instruction of `lines`, where there
/// are at least two and it is readable: the end of a range that
/// disassembles completely.
pub fn penultimate_address(lines: &[MiValue]) -> (r: Option<Address>)
    ensures
        r == (if lines@.len() >= 2 {
            instruction_address(lines@[lines@.len() - 2].view())
        } else {
            None
        }),
{
    let n = lines.len();
    if n < 2 {
        None
    } else {
        instruction_address_exec(&lines[n - 2])
    }
}

/// The stack level that a step selects: one up, but not past the outermost
/// frame of a stack `depth` deep; or one down, but not below zero.
pub open spec fn new_stack_level_spec(level: u64, up: bool, depth: u64) -> int {
    if up {
        let top: int = if depth >= 1 {
            depth - 1
        } else {
            0
        };
        if level + 1 <= top {
            level + 1
        } else {
            top
        }
    } else if level >= 1 {
        level - 1
    } else {
        0
    }
}

/// The stack level that a step up or down from `level` selects (see
/// [`new_stack_level_spec`]); the depth counts only for a step up.
pub fn new_stack_level(level: u64, up: bool, depth: u64) -> (r: u64)
    requires
        up ==> level < u64::MAX,
    ensures
        r == new_stack_level_spec(level, up, depth),
{
    if up {
        let top = depth.saturating_sub(1);
        let next = level + 1;
        if next <= top {
            next
        } else {
            top
        }
    } else {
        level.saturating_sub(1)
    }
}

/// Where in a function an instruction lies: the function's name and the
/// offset from its start.
#[derive(Debug, PartialEq, Eq)]
pub struct AssemblyDebugLocation {
    pub func_name: String,
    pub offset: usize,
}

impl AssemblyDebugLocation {
    /// The location that an instruction of gdb's disassembly names: its
    /// `func-name` and its decimal `offset`.
    pub fn try_from_value(val: &MiValue) -> (r: Option<Self>)
        ensures
            match (member_text(val.view(), "func-name"@), member_text(val.view(), "offset"@)) {
                (Some(f), Some(o)) => match parse_usize_spec(o, 10) {
                    Ok(n) => r matches Some(l) && l.func_name@ == f && l.offset == n,
                    Err(_) => r is None,
                },
                _ => r is None,
            },
    {
        let func_name = member_text_exec(val, "func-name")?;
        let offset = member_text_exec(val, "offset")?;
        match parse_usize(offset, 10) {
            Ok(n) => Some(AssemblyDebugLocation { func_name: func_name.to_owned(), offset: n }),
            Err(_) => None,
        }
    }
}

/// An instruction as the assembly view shows it: its text, its address,
/// and where known its source position and its place in a function.
pub struct AssemblyLine {
    pub content: String,
    pub address: Address,
    pub src_position: Option<SrcPosition>,
    pub debug_location: Option<AssemblyDebugLocation>,
}

impl AssemblyLine {
    pub fn new(
        content: String,
        address: Address,
        src_position: Option<SrcPosition>,
        debug_location: Option<AssemblyDebugLocation>,
    ) -> (r: Self)
        ensures
            r == (AssemblyLine { content, address, src_position, debug_location }),
    {
        AssemblyLine { content, address, src_position, debug_location }
    }
}

/// Where `x`, of address `a`, goes into `s`, sorted by address: after the
/// lines with an address up to `a`, from `i` on.
pub open spec fn insert_pos(s: Seq<AssemblyLine>, a: usize, i: int) -> int
    decreases s.len() - i,
{
    if i < 0 || i >= s.len() {
        s.len() as int
    } else if s[i].address.0 > a {
        i
    } else {
        insert_pos(s, a, i + 1)
    }
}

/// `s`, sorted by address, with `x` inserted after the lines whose address
/// is not greater.
pub open spec fn insert_sorted_line(s: Seq<AssemblyLine>, x: AssemblyLine) -> Seq<AssemblyLine> {
    s.insert(insert_pos(s, x.address.0, 0), x)
}

/// The lines of `s` sorted by address, lines of equal address in their
/// order in `s` (inserted one by one, in order).
pub open spec fn sorted_by_address_spec(s: Seq<AssemblyLine>) -> Seq<AssemblyLine>
    decreases s.len(),
{
    if s.len() == 0 {
        Seq::empty()
    } else {
        insert_sorted_line(sorted_by_address_spec(s.drop_last()), s.last())
    }
}

/// Whether the addresses of `s` do not decrease.
pub open spec fn addresses_ascending(s: Seq<AssemblyLine>) -> bool {
    forall|i: int, j: int| 0 <= i <= j < s.len() ==> (#[trigger] s[i]).address.0 <= (#[trigger] s[j]).address.0
}

proof fn lemma_insert_pos(s: Seq<AssemblyLine>, a: usize, i: int)
    requires
        0 <= i <= s.len(),
        addresses_ascending(s),
        forall|k: int| 0 <= k < i ==> (#[trigger] s[k]).address.0 <= a,
    ensures
        i <= insert_pos(s, a, i) <= s.len(),
        forall|k: int| 0 <= k < insert_pos(s, a, i) ==> (#[trigger] s[k]).address.0 <= a,
        forall|k: int| insert_pos(s, a, i) <= k < s.len() ==> (#[trigger] s[k]).address.0 > a,
    decreases s.len() - i,
{
    if i < s.len() && s[i].address.0 <= a {
        lemma_insert_pos(s, a, i + 1);
    }
}

/// Sorting gives ascending addresses and keeps the lines: the same ones,
/// as often.
pub proof fn lemma_sorted_by_address(s: Seq<AssemblyLine>)
    ensures
        addresses_ascending(sorted_by_address_spec(s)),
        sorted_by_address_spec(s).to_multiset() == s.to_multiset(),
    decreases s.len(),
{
    if s.len() > 0 {
        let t = sorted_by_address_spec(s.drop_last());
        lemma_sorted_by_address(s.drop_last());
        let x = s.last();
        lemma_insert_pos(t, x.address.0, 0);
        let p = insert_pos(t, x.address.0, 0);
        let u = t.insert(p, x);
        assert forall|i: int, j: int| 0 <= i <= j < u.len() implies (#[trigger] u[i]).address.0 <= (#[trigger] u[j]).address.0 by {
            if i < p && j < p {
                assert(u[i] == t[i] && u[j] == t[j]);
            } else if i < p && j == p {
                assert(u[i] == t[i]);
            } else if i < p && j > p {
                assert(u[i] == t[i] && u[j] == t[j - 1]);
            } else if i == p && j > p {
                assert(u[j] == t[j - 1]);
            } else if i > p {
                assert(u[i] == t[i - 1] && u[j] == t[j - 1]);
            }
        }
        vstd::seq_lib::to_multiset_insert(t, p, x);
        assert(s.drop_last().push(x) =~= s);
        vstd::seq_lib::to_multiset_build(s.drop_last(), x);
    } else {
        assert(s =~= Seq::<AssemblyLine>::empty());
    }
}

/// The lines sorted by address, lines of equal address in their order
/// (see [`sorted_by_address_spec`]).
pub fn sort_by_address(lines: Vec<AssemblyLine>) -> (r: Vec<AssemblyLine>)
    ensures
        r@ == sorted_by_address_spec(lines@),
{
    let ghost s = lines@;
    let n = lines.len();
    let mut rest = lines;
    let mut out: Vec<AssemblyLine> = Vec::new();
    let mut k: usize = 0;
    assert(s.take(0) =~= Seq::<AssemblyLine>::empty());
    assert(s.skip(0) =~= s);
    while rest.len() > 0
        invariant
            k <= s.len(),
            rest@ == s.skip(k as int),
            s.len() == n,
            out@ == sorted_by_address_spec(s.take(k as int)),
        decreases rest@.len(),
    {
        let x = rest.remove(0);
        assert(x == s[k as int]);
        assert(s.skip(k as int).remove(0) =~= s.skip(k + 1));
        let ghost t = out@;
        let mut p: usize = 0;
        assert(insert_pos(t, x.address.0, 0) == insert_pos(t, x.address.0, p as int));
        while p < out.len() && out[p].address.0 <= x.address.0
            invariant
                p <= out@.len(),
                out@ == t,
                insert_pos(t, x.address.0, 0) == insert_pos(t, x.address.0, p as int),
            decreases out@.len() - p,
        {
            p += 1;
        }
        out.insert(p, x);
        proof {
            assert(s.take(k + 1).drop_last() =~= s.take(k as int));
            assert(s.take(k + 1).last() == x);
        }
        k += 1;
    }
    assert(s.take(k as int) =~= s);
    out
}

/// Why a view could not go to a line.
#[derive(Clone, Copy, PartialEq, Eq, Debug, Structural)]
pub enum GotoError {
    /// The program has not stopped yet.
    NoLastStopPosition,
    /// The view shows another file than that of the last stop.
    MismatchedPagerContent,
    /// The view shows nothing.
    NoContent,
}

/// The line of the last stop, if the source view shows its file: no file
/// shown, no stop yet, and a stop in another file are errors, in this order.
pub fn last_stop_line(shown_file: Option<&str>, last_stop: &Option<SrcPosition>) -> (r: Result<usize, GotoError>)
    ensures
        r == (match shown_file {
            None => Err(GotoError::NoContent),
            Some(f) => match last_stop {
                None => Err(GotoError::NoLastStopPosition),
                Some(p) => if p.file@ == f@ {
                    Ok(p.line)
                } else {
                    Err(GotoError::MismatchedPagerContent)
                },
            },
        }),
{
    match shown_file {
        None => Err(GotoError::NoContent),
        Some(f) => match last_stop {
            None => Err(GotoError::NoLastStopPosition),
            Some(p) => {
                if str_eq(p.file.as_str(), f) {
                    Ok(p.line)
                } else {
                    Err(GotoError::MismatchedPagerContent)
                }
            },
        },
    }
}

/// Whether an assembly line comes from line `line` of `file`.
pub open spec fn line_from(l: AssemblyLine, file: Seq<char>, line: usize) -> bool {
    l.src_position matches Some(p) && p.file@ == file && p.line == line
}

/// The index of the first assembly line that comes from line `line` of
/// `file`, if there is one.
pub fn first_line_for_source(lines: &[AssemblyLine], file: &str, line: usize) -> (r: Option<usize>)
    ensures
        match r {
            Some(i) => i < lines@.len() && line_from(lines@[i as int], file@, line)
                && forall|j: int| 0 <= j < i ==> !line_from(#[trigger] lines@[j], file@, line),
            None => forall|j: int| 0 <= j < lines@.len() ==> !line_from(#[trigger] lines@[j], file@, line),
        },
{
    let mut i: usize = 0;
    while i < lines.len()
        invariant
            i <= lines@.len(),
            forall|j: int| 0 <= j < i ==> !line_from(#[trigger] lines@[j], file@, line),
        decreases lines@.len() - i,
    {
        let hit = match &lines[i].src_position {
            Some(p) => p.line == line && str_eq(p.file.as_str(), file),
            None => false,
        };
        if hit {
            return Some(i);
        }
        i += 1;
    }
    None
}

/// The index of the first assembly line at address `a`, if there is one.
pub fn first_line_at_address(lines: &[AssemblyLine], a: Address) -> (r: Option<usize>)
    ensures
        match r {
            Some(i) => i < lines@.len() && lines@[i as int].address == a
                && forall|j: int| 0 <= j < i ==> (#[trigger] lines@[j]).address != a,
            None => forall|j: int| 0 <= j < lines@.len() ==> (#[trigger] lines@[j]).address != a,
        },
{
    let mut i: usize = 0;
    while i < lines.len()
        invariant
            i <= lines@.len(),
            forall|j: int| 0 <= j < i ==> (#[trigger] lines@[j]).address != a,
        decreases lines@.len() - i,
    {
        if lines[i].address.0 == a.0 {
            return Some(i);
        }
        i += 1;
    }
    None
}

/// The range of addresses that the lines `lines` (sorted by address)
/// show: from the first address to one past the last; `None` for no
/// lines.
pub fn shown_address_range(lines: &[AssemblyLine]) -> (r: Option<(Address, Address)>)
    requires
        lines@.len() > 0 ==> lines@.last().address.0 < usize::MAX,
    ensures
        r == (if lines@.len() == 0 {
            None
        } else {
            Some((lines@[0].address, Address((lines@.last().address.0 + 1) as usize)))
        }),
{
    if lines.len() == 0 {
        return None;
    }
    let last = lines[lines.len() - 1].address.0;
    Some((lines[0].address, Address(last + 1)))
}

/// The head of the stack information: `[level/depth] function @ `, with
/// `?` for what is unknown.
pub fn stack_info_prefix(level: Option<u64>, depth: Option<u64>, function: Option<&str>) -> (r: String)
    ensures
        r@ == seq!['['] + (match level {
            Some(l) => decimal(l as nat),
            None => seq!['?'],
        }) + seq!['/'] + (match depth {
            Some(d) => decimal(d as nat),
            None => seq!['?'],
        }) + seq![']', ' '] + (match function {
            Some(f) => f@,
            None => seq!['?'],
        }) + seq![' ', '@', ' '],
{
    let mut r = String::new();
    push_char(&mut r, '[');
    match level {
        Some(l) => push_str(&mut r, decimal_string(l as u128).as_str()),
        None => push_char(&mut r, '?'),
    }
    push_char(&mut r, '/');
    match depth {
        Some(d) => push_str(&mut r, decimal_string(d as u128).as_str()),
        None => push_char(&mut r, '?'),
    }
    push_char(&mut r, ']');
    push_char(&mut r, ' ');
    match function {
        Some(f) => push_str(&mut r, f),
        None => push_char(&mut r, '?'),
    }
    push_char(&mut r, ' ');
    push_char(&mut r, '@');
    push_char(&mut r, ' ');
    proof {
        assert(r@ =~= seq!['['] + (match level {
            Some(l) => decimal(l as nat),
            None => seq!['?'],
        }) + seq!['/'] + (match depth {
            Some(d) => decimal(d as nat),
            None => seq!['?'],
        }) + seq![']', ' '] + (match function {
            Some(f) => f@,
            None => seq!['?'],
        }) + seq![' ', '@', ' ']);
    }
    r
}

/// What a toggle of a breakpoint does: insert one, or delete those that
/// are set there.
pub enum BreakpointToggle {
    Insert,
    Delete(Vec<BreakPointNumber>),
}

/// The toggle at address `a`: delete the breakpoints set there, or insert
/// one if there are none.
pub fn toggle_at_address(bps: &BreakPointSet, a: Address) -> (r: BreakpointToggle)
    ensures
        match r {
            BreakpointToggle::Insert => numbers_where(bps@, at_address(a)).is_empty(),
            BreakpointToggle::Delete(v) => v@.len() > 0 && v@.to_set() == numbers_where(bps@, at_address(a)),
        },
{
    let v = bps.numbers_at_address(a);
    if v.len() == 0 {
        proof {
            assert(v@.to_set() =~= Set::<BreakPointNumber>::empty());
        }
        BreakpointToggle::Insert
    } else {
        BreakpointToggle::Delete(v)
    }
}

/// The toggle at line `line` of `file`: delete the breakpoints set there,
/// or insert one if there are none.
pub fn toggle_at_line(bps: &BreakPointSet, file: &str, line: usize) -> (r: BreakpointToggle)
    ensures
        match r {
            BreakpointToggle::Insert => numbers_where(bps@, at_line(file@, line)).is_empty(),
            BreakpointToggle::Delete(v) => v@.len() > 0 && v@.to_set() == numbers_where(bps@, at_line(file@, line)),
        },
{
    let v = bps.numbers_at_line(file, line);
    if v.len() == 0 {
        proof {
            assert(v@.to_set() =~= Set::<BreakPointNumber>::empty());
        }
        BreakpointToggle::Insert
    } else {
        BreakpointToggle::Delete(v)
    }
}

/// What the assembly view logs when a toggle failed.
pub fn assembly_toggle_message(inserting: bool, e: &BreakpointOperationError) -> (r: String)
    ensures
        r@ == (match e {
            BreakpointOperationError::Busy => if inserting {
                "Cannot insert breakpoint: Gdb is busy."@
            } else {
                "Cannot remove breakpoint: Gdb is busy."@
            },
            BreakpointOperationError::ExecutionError(m) => (if inserting {
                "Cannot insert breakpoint: "@
            } else {
                "Cannot remove breakpoint: "@
            }) + m@,
        }),
{
    match e {
        BreakpointOperationError::Busy => {
            if inserting {
                "Cannot insert breakpoint: Gdb is busy.".to_owned()
            } else {
                "Cannot remove breakpoint: Gdb is busy.".to_owned()
            }
        },
        BreakpointOperationError::ExecutionError(m) => {
            let mut r = if inserting {
                "Cannot insert breakpoint: ".to_owned()
            } else {
                "Cannot remove breakpoint: ".to_owned()
            };
            push_str(&mut r, m.as_str());
            r
        },
    }
}

/// What the source view logs when a toggle failed, whatever the error.
pub fn source_toggle_message(inserting: bool) -> (r: String)
    ensures
        r@ == (if inserting {
            "Cannot insert breakpoint: Gdb is busy."@
        } else {
            "Cannot remove breakpoint: Gdb is busy."@
        }),
{
    if inserting {
        "Cannot insert breakpoint: Gdb is busy.".to_owned()
    } else {
        "Cannot remove breakpoint: Gdb is busy.".to_owned()
    }
}

/// The line of the last stop, if it was in `file`.
pub fn last_line_number_for(last_stop: &Option<SrcPosition>, file: &str) -> (r: Option<usize>)
    ensures
        r == (match last_stop {
            Some(p) => if p.file@ == file@ {
                Some(p.line)
            } else {
                None
            },
            None => None,
        }),
{
    match last_stop {
        Some(p) => {
            if str_eq(file, p.file.as_str()) {
                Some(p.line)
            } else {
                None
            }
        },
        None => None,
    }
}

/// The mark at the right border of a line: an arrow at the stop position,
/// a dot at a breakpoint, else blank.
pub open spec fn border_spec(at_stop: bool, at_breakpoint: bool) -> char {
    if at_stop {
        '▶'
    } else if at_breakpoint {
        '●'
    } else {
        ' '
    }
}

fn border(at_stop: bool, at_breakpoint: bool) -> (r: char)
    ensures
        r == border_spec(at_stop, at_breakpoint),
{
    if at_stop {
        '▶'
    } else if at_breakpoint {
        '●'
    } else {
        ' '
    }
}

/// `s` preceded by as many `fill` as make it `width` long (unchanged if it
/// is that long already).
pub open spec fn pad_left(s: Seq<char>, fill: char, width: nat) -> Seq<char> {
    if s.len() >= width {
        s
    } else {
        Seq::new((width - s.len()) as nat, |i: int| fill) + s
    }
}

fn push_padded(out: &mut String, s: &[char], fill: char, width: usize)
    ensures
        final(out)@ == old(out)@ + pad_left(s@, fill, width as nat),
{
    let n = s.len();
    if n < width {
        let mut i: usize = 0;
        while i < width - n
            invariant
                n == s@.len(),
                n < width,
                i <= width - n,
                out@ == old(out)@ + Seq::new(i as nat, |k: int| fill),
            decreases width - n - i,
        {
            push_char(out, fill);
            proof {
                assert(Seq::new(i as nat, |k: int| fill).push(fill) =~= Seq::new((i + 1) as nat, |k: int| fill));
            }
            i += 1;
        }
    }
    let ghost before = out@;
    push_chars(out, s);
    proof {
        if n < width {
            assert(before + s@ =~= old(out)@ + (Seq::new((width - n) as nat, |k: int| fill) + s@));
        }
    }
}

/// Where the assembly view decorates its lines: the stop position and the
/// addresses of the enabled breakpoints, as far as they lie in the range
/// of the lines shown.
pub struct AssemblyDecorator {
    pub stop_position: Option<Address>,
    pub breakpoint_addresses: Vec<Address>,
}

impl AssemblyDecorator {
    /// The decoration of the addresses `start..end`.
    pub fn new(start: Address, end: Address, stop_position: Option<Address>, bps: &BreakPointSet) -> (r: Self)
        ensures
            r.breakpoint_addresses@.to_set() == enabled_addresses(bps@, start, end),
            r.stop_position == (match stop_position {
                Some(p) => if start.0 <= p.0 && p.0 < end.0 {
                    Some(p)
                } else {
                    None
                },
                None => None,
            }),
    {
        let stop = match stop_position {
            Some(p) => {
                if start.0 <= p.0 && p.0 < end.0 {
                    Some(p)
                } else {
                    None
                }
            },
            None => None,
        };
        AssemblyDecorator { stop_position: stop, breakpoint_addresses: bps.enabled_addresses_in(start, end) }
    }

    /// The label of an instruction at `address`: its offset in its function
    /// as `<+offset>`, right-aligned in `width - 1` columns, where the line
    /// is not the active one and the offset is not zero; else its address in
    /// hexadecimal, zero-padded to `width - 4` digits after ` 0x`. The mark
    /// of the right border follows (see [`border_spec`]).
    pub fn label(&self, address: Address, offset: Option<usize>, is_active: bool, width: usize) -> (r: String)
        ensures
            r@ == ({
                let b = border_spec(
                    self.stop_position == Some(address),
                    self.breakpoint_addresses@.contains(address),
                );
                match offset {
                    Some(o) if !is_active && o != 0 => pad_left(
                        seq!['<', '+'] + decimal(o as nat) + seq!['>'],
                        ' ',
                        if width >= 1 { (width - 1) as nat } else { 0 },
                    ).push(b),
                    _ => seq![' ', '0', 'x'] + pad_left(
                        radix_digits(address.0 as nat, 16),
                        '0',
                        if width >= 4 { (width - 4) as nat } else { 0 },
                    ) + seq![b],
                }
            }),
    {
        let at_stop = match self.stop_position {
            Some(p) => p.0 == address.0,
            None => false,
        };
        let mut at_bp = false;
        let mut i: usize = 0;
        while i < self.breakpoint_addresses.len()
            invariant
                i <= self.breakpoint_addresses@.len(),
                at_bp == exists|j: int| 0 <= j < i && self.breakpoint_addresses@[j] == address,
            decreases self.breakpoint_addresses@.len() - i,
        {
            if self.breakpoint_addresses[i].0 == address.0 {
                at_bp = true;
            }
            i += 1;
        }
        let b = border(at_stop, at_bp);
        let mut r = String::new();
        let use_offset = match offset {
            Some(o) => !is_active && o != 0,
            None => false,
        };
        if use_offset {
            let o = match offset {
                Some(o) => o,
                None => 0,
            };
            let mut text: Vec<char> = Vec::new();
            text.push('<');
            text.push('+');
            let digits = radix_chars(o as u128, 10);
            let mut k: usize = 0;
            let ghost t0 = text@;
            while k < digits.len()
                invariant
                    k <= digits@.len(),
                    text@ == t0 + digits@.take(k as int),
                decreases digits@.len() - k,
            {
                text.push(digits[k]);
                proof {
                    assert(t0 + digits@.take(k + 1) =~= (t0 + digits@.take(k as int)).push(digits@[k as int]));
                }
                k += 1;
            }
            text.push('>');
            proof {
                assert(digits@.take(digits@.len() as int) =~= digits@);
                assert(text@ =~= seq!['<', '+'] + decimal(o as nat) + seq!['>']);
            }
            push_padded(&mut r, text.as_slice(), ' ', width.saturating_sub(1));
            push_char(&mut r, b);
            proof {
                assert(r@ =~= pad_left(seq!['<', '+'] + decimal(o as nat) + seq!['>'], ' ', if width >= 1 { (width - 1) as nat } else { 0 }).push(b));
            }
        } else {
            push_str(&mut r, " 0x");
            proof {
                reveal_strlit(" 0x");
            }
            let digits = radix_chars(address.0 as u128, 16);
            push_padded(&mut r, digits.as_slice(), '0', width.saturating_sub(4));
            push_char(&mut r, b);
            proof {
                assert(r@ =~= seq![' ', '0', 'x'] + pad_left(radix_digits(address.0 as nat, 16), '0', if width >= 4 { (width - 4) as nat } else { 0 }) + seq![b]);
            }
        }
        r
    }
}

/// Where the source view decorates its lines: the line of the last stop
/// and the lines of the enabled breakpoints of the file shown.
pub struct SourceDecorator {
    pub stop_position: Option<usize>,
    pub breakpoint_lines: Vec<usize>,
}

impl SourceDecorator {
    /// The decoration of `file`.
    pub fn new(file: &str, stop_position: Option<usize>, bps: &BreakPointSet) -> (r: Self)
        ensures
            r.breakpoint_lines@.to_set() == enabled_lines(bps@, file@),
            r.stop_position == stop_position,
    {
        SourceDecorator { stop_position, breakpoint_lines: bps.enabled_lines_in(file) }
    }

    /// The label of line `line_number`: a blank, the number right-aligned in
    /// `width - 2` columns, and the mark of the right border (see
    /// [`border_spec`]).
    pub fn label(&self, line_number: usize, width: usize) -> (r: String)
        ensures
            r@ == seq![' '] + pad_left(decimal(line_number as nat), ' ', if width >= 2 { (width - 2) as nat } else { 0 })
                + seq![border_spec(self.stop_position == Some(line_number), self.breakpoint_lines@.contains(line_number))],
    {
        let at_stop = match self.stop_position {
            Some(p) => p == line_number,
            None => false,
        };
        let mut at_bp = false;
        let mut i: usize = 0;
        while i < self.breakpoint_lines.len()
            invariant
                i <= self.breakpoint_lines@.len(),
                at_bp == exists|j: int| 0 <= j < i && self.breakpoint_lines@[j] == line_number,
            decreases self.breakpoint_lines@.len() - i,
        {
            if self.breakpoint_lines[i] == line_number {
                at_bp = true;
            }
            i += 1;
        }
        let b = border(at_stop, at_bp);
        let mut r = String::new();
        push_char(&mut r, ' ');
        let digits = radix_chars(line_number as u128, 10);
        push_padded(&mut r, digits.as_slice(), ' ', width.saturating_sub(2));
        push_char(&mut r, b);
        proof {
            assert(r@ =~= seq![' '] + pad_left(decimal(line_number as nat), ' ', if width >= 2 { (width - 2) as nat } else { 0 }) + seq![b]);
        }
        r
    }
}

} // verus!
