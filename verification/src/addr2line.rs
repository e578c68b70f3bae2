//! Resolving an instruction address to its inline-expanded call chain.
//!
//! The resolver works over decoded debug data held as plain values: per
//! module, a symbol stream (procedures, inline sites and other symbols,
//! in stream order), a file table, and the inlinee metadata that inline
//! sites reference. Procedure start offsets come already translated to
//! relative virtual addresses; a procedure whose offset failed to
//! translate carries no address and is skipped during the search.

use vstd::prelude::*;

use crate::line_search::LineRecord;
use crate::line_search::find_by_explicit_length;
use crate::line_search::find_by_implicit_end;
use crate::line_search::find_implicit;
use crate::line_search::find_sized;

verus! {

/// A resolved stack entry. Either field may be absent; a frame with
/// both absent marks an address that could not be symbolicated at all.
#[derive(Debug, PartialEq)]
pub struct Frame {
    pub function: Option<String>,
    pub location: Option<Location>,
}

/// A source location: file name, line and column, each possibly unknown.
#[derive(Debug, PartialEq)]
pub struct Location {
    pub file: Option<String>,
    pub line: Option<u32>,
    pub column: Option<u32>,
}

impl Clone for Location {
    fn clone(&self) -> (r: Self)
        ensures
            r == *self,
    {
        Location {
            file: match &self.file {
                Some(s) => Some(s.clone()),
                None => None,
            },
            line: self.line,
            column: self.column,
        }
    }
}

impl Clone for Frame {
    fn clone(&self) -> (r: Self)
        ensures
            r == *self,
    {
        Frame {
            function: match &self.function {
                Some(s) => Some(s.clone()),
                None => None,
            },
            location: match &self.location {
                Some(l) => Some(l.clone()),
                None => None,
            },
        }
    }
}

/// A file-table entry: a file index and the file name it resolves to.
/// The name is absent where the string-table lookup failed.
#[derive(Debug)]
pub struct FileEntry {
    pub index: u32,
    pub name: Option<String>,
}

/// Per-inlinee metadata: the inlinee id and the display name used for
/// frames at inline sites that reference it.
#[derive(Debug)]
pub struct Inlinee {
    pub id: u32,
    pub name: String,
}

/// An inline-site symbol: the id of the inlinee it references and its
/// sized line-record fragment, already derived relative to the parent
/// procedure's offset.
#[derive(Debug)]
pub struct InlineSiteSym {
    pub inlinee_id: u32,
    pub lines: Vec<LineRecord>,
}

/// A procedure symbol: display name, type index for signature
/// formatting, start address (absent where translation failed), byte
/// length, and the procedure's unsized line records. A procedure covers
/// the half-open range `[start_rva, start_rva + len)`.
#[derive(Debug)]
pub struct ProcSym {
    pub name: String,
    pub type_index: u32,
    pub start_rva: Option<u32>,
    pub len: u32,
    pub lines: Vec<LineRecord>,
}

/// One entry of a module's symbol stream. Symbol kinds the resolver
/// does not interpret appear as `Other` and are ignored.
#[derive(Debug)]
pub enum Symbol {
    Procedure(ProcSym),
    InlineSite(InlineSiteSym),
    Other,
}

/// The decoded debug data of one module.
#[derive(Debug)]
pub struct ModuleDebugInfo {
    pub symbols: Vec<Symbol>,
    pub files: Vec<FileEntry>,
    pub inlinees: Vec<Inlinee>,
}

/// Whether a procedure's range `[start_rva, start_rva + len)` contains
/// `address`. A procedure without a translated start address covers
/// nothing.
pub open spec fn proc_covers(p: ProcSym, address: u32) -> bool {
    match p.start_rva {
        Some(rva) => rva <= address && (address as int) < rva + p.len,
        None => false,
    }
}

/// The end of a procedure's range; zero where it has no start address.
pub open spec fn spec_proc_end(p: ProcSym) -> u64 {
    match p.start_rva {
        Some(rva) => (rva + p.len) as u64,
        None => 0u64,
    }
}

/// The procedure held by a `Procedure` symbol.
pub open spec fn symbol_proc(s: Symbol) -> ProcSym {
    match s {
        Symbol::Procedure(p) => p,
        _ => arbitrary(),
    }
}

/// Whether a symbol is a `Procedure` symbol.
pub open spec fn is_procedure(s: Symbol) -> bool {
    match s {
        Symbol::Procedure(_) => true,
        _ => false,
    }
}

/// The name of the first file-table entry with the given index, if any.
pub open spec fn file_lookup(files: Seq<FileEntry>, index: u32) -> Option<String>
    decreases files.len(),
{
    if files.len() == 0 {
        None
    } else if files[0].index == index {
        files[0].name
    } else {
        file_lookup(files.drop_first(), index)
    }
}

/// The source location a line record resolves to: its file index looked
/// up in the file table, its starting line, and its starting column.
pub open spec fn spec_location(r: LineRecord, files: Seq<FileEntry>) -> Location {
    Location { file: file_lookup(files, r.file_index), line: Some(r.line_start), column: r.column_start }
}

/// The first inlinee with the given id, if any.
pub open spec fn inlinee_lookup(inlinees: Seq<Inlinee>, id: u32) -> Option<Inlinee>
    decreases inlinees.len(),
{
    if inlinees.len() == 0 {
        None
    } else if inlinees[0].id == id {
        Some(inlinees[0])
    } else {
        inlinee_lookup(inlinees.drop_first(), id)
    }
}

/// The frame an inline site contributes for `address`: none if the
/// referenced inlinee is unknown or no sized line record of the site
/// covers the address; otherwise a frame with both the inlinee's
/// display name and the covering record's location.
pub open spec fn spec_inline_frame(
    site: InlineSiteSym,
    address: u32,
    inlinees: Seq<Inlinee>,
    files: Seq<FileEntry>,
) -> Option<Frame> {
    match inlinee_lookup(inlinees, site.inlinee_id) {
        None => None,
        Some(inl) => match find_sized(site.lines@, address) {
            None => None,
            Some(rec) => Some(
                Frame { function: Some(inl.name), location: Some(spec_location(rec, files)) },
            ),
        },
    }
}

/// The frame of the physical procedure itself: always named; its
/// location is the unsized line record covering `address`, bounded
/// above by the procedure's end, and absent if no record covers it.
pub open spec fn spec_outer_frame(p: ProcSym, address: u32, files: Seq<FileEntry>) -> Frame {
    Frame {
        function: Some(p.name),
        location: match find_implicit(p.lines@, address, spec_proc_end(p)) {
            Some(rec) => Some(spec_location(rec, files)),
            None => None,
        },
    }
}

/// The frames contributed by inline-site symbols from index `k` up to
/// the next `Procedure` symbol (exclusive) or the end of the stream, in
/// stream order. Symbols of other kinds contribute nothing.
pub open spec fn spec_inline_frames_from(
    symbols: Seq<Symbol>,
    k: int,
    address: u32,
    inlinees: Seq<Inlinee>,
    files: Seq<FileEntry>,
) -> Seq<Frame>
    decreases symbols.len() - k,
{
    if k < 0 || k >= symbols.len() {
        Seq::empty()
    } else {
        match symbols[k] {
            Symbol::Procedure(_) => Seq::empty(),
            Symbol::InlineSite(site) => {
                let rest = spec_inline_frames_from(symbols, k + 1, address, inlinees, files);
                match spec_inline_frame(site, address, inlinees, files) {
                    Some(f) => seq![f] + rest,
                    None => rest,
                }
            },
            Symbol::Other => spec_inline_frames_from(symbols, k + 1, address, inlinees, files),
        }
    }
}

/// The frame chain for the procedure at symbol index `idx` of a module:
/// the outer frame followed by the inline frames that follow it in the
/// symbol stream, reversed into innermost-first order.
pub open spec fn spec_proc_frames(m: ModuleDebugInfo, idx: int, address: u32) -> Seq<Frame> {
    let p = symbol_proc(m.symbols@[idx]);
    (seq![spec_outer_frame(p, address, m.files@)] + spec_inline_frames_from(
        m.symbols@,
        idx + 1,
        address,
        m.inlinees@,
        m.files@,
    )).reverse()
}

/// The index of the first `Procedure` symbol at position `k` or later
/// whose range contains `address`, if any.
pub open spec fn spec_first_proc_from(symbols: Seq<Symbol>, address: u32, k: int) -> Option<int>
    decreases symbols.len() - k,
{
    if k < 0 || k >= symbols.len() {
        None
    } else {
        match symbols[k] {
            Symbol::Procedure(p) => if proc_covers(p, address) {
                Some(k)
            } else {
                spec_first_proc_from(symbols, address, k + 1)
            },
            _ => spec_first_proc_from(symbols, address, k + 1),
        }
    }
}

/// The index of the first covering `Procedure` symbol of a stream.
pub open spec fn spec_first_proc(symbols: Seq<Symbol>, address: u32) -> Option<int> {
    spec_first_proc_from(symbols, address, 0)
}

/// Whether some procedure of the module covers `address`.
pub open spec fn module_covers(m: ModuleDebugInfo, address: u32) -> bool {
    spec_first_proc(m.symbols@, address) is Some
}

/// What the first-covering-procedure search result means: a found index
/// names a covering `Procedure` symbol and no earlier one covers; a
/// miss means no `Procedure` symbol from `k` on covers the address.
pub proof fn lemma_first_proc_from_props(symbols: Seq<Symbol>, address: u32, k: int)
    requires
        0 <= k,
    ensures
        match spec_first_proc_from(symbols, address, k) {
            Some(i) => k <= i < symbols.len() && is_procedure(symbols[i]) && proc_covers(
                symbol_proc(symbols[i]),
                address,
            ) && forall|j: int|
                k <= j < i && is_procedure(symbols[j]) ==> !proc_covers(
                    symbol_proc(symbols[j]),
                    address,
                ),
            None => forall|j: int|
                k <= j < symbols.len() && is_procedure(symbols[j]) ==> !proc_covers(
                    symbol_proc(symbols[j]),
                    address,
                ),
        },
    decreases symbols.len() - k,
{
    if k < 0 || k >= symbols.len() {
    } else {
        let head_skipped = match symbols[k] {
            Symbol::Procedure(p) => !proc_covers(p, address),
            _ => true,
        };
        if head_skipped {
            lemma_first_proc_from_props(symbols, address, k + 1);
            assert(is_procedure(symbols[k]) ==> !proc_covers(symbol_proc(symbols[k]), address));
            match spec_first_proc_from(symbols, address, k + 1) {
                Some(i) => {
                    assert(spec_first_proc_from(symbols, address, k) == Some(i));
                    assert forall|j: int|
                        k <= j < i && is_procedure(symbols[j]) implies !proc_covers(
                        symbol_proc(symbols[j]),
                        address,
                    ) by {
                        if j > k {
                            assert(k + 1 <= j < i);
                        }
                    }
                },
                None => {
                    assert forall|j: int|
                        k <= j < symbols.len() && is_procedure(symbols[j]) implies !proc_covers(
                        symbol_proc(symbols[j]),
                        address,
                    ) by {
                        if j > k {
                            assert(k + 1 <= j < symbols.len());
                        }
                    }
                },
            }
        } else {
            assert(spec_first_proc_from(symbols, address, k) == Some(k));
        }
    }
}

/// The frame chain for `address` over a sequence of modules: the first
/// module holding a covering procedure is authoritative; with none, the
/// chain is empty.
pub open spec fn spec_find_frames_mods(mods: Seq<ModuleDebugInfo>, address: u32) -> Seq<Frame>
    decreases mods.len(),
{
    if mods.len() == 0 {
        Seq::empty()
    } else {
        match spec_first_proc(mods[0].symbols@, address) {
            Some(idx) => spec_proc_frames(mods[0], idx, address),
            None => spec_find_frames_mods(mods.drop_first(), address),
        }
    }
}

/// The frame chain `find_frames` returns, as a function of the debug
/// data snapshot and the address alone.
pub open spec fn spec_find_frames(ctx: Addr2LineContext, address: u32) -> Seq<Frame> {
    spec_find_frames_mods(ctx.modules@, address)
}

/// The resolver: holds the decoded debug data of every module of the
/// profiled process, in enumeration order.
pub struct Addr2LineContext {
    pub modules: Vec<ModuleDebugInfo>,
}

proof fn lemma_find_frames_mods_nonempty(mods: Seq<ModuleDebugInfo>, address: u32)
    ensures
        spec_find_frames_mods(mods, address).len() > 0 <==> exists|i: int|
            0 <= i < mods.len() && module_covers(mods[i], address),
    decreases mods.len(),
{
    if mods.len() == 0 {
    } else {
        match spec_first_proc(mods[0].symbols@, address) {
            Some(idx) => {
                assert(module_covers(mods[0], address));
                assert(spec_find_frames_mods(mods, address).len() > 0);
            },
            None => {
                lemma_find_frames_mods_nonempty(mods.drop_first(), address);
                assert(!module_covers(mods[0], address));
                if spec_find_frames_mods(mods, address).len() > 0 {
                    let i = choose|i: int|
                        0 <= i < mods.drop_first().len() && module_covers(
                            mods.drop_first()[i],
                            address,
                        );
                    assert(mods.drop_first()[i] == mods[i + 1]);
                    assert(module_covers(mods[i + 1], address));
                }
                if exists|i: int| 0 <= i < mods.len() && module_covers(mods[i], address) {
                    let i = choose|i: int| 0 <= i < mods.len() && module_covers(mods[i], address);
                    assert(i >= 1);
                    assert(mods.drop_first()[i - 1] == mods[i]);
                    assert(exists|j: int|
                        0 <= j < mods.drop_first().len() && module_covers(
                            mods.drop_first()[j],
                            address,
                        ));
                }
            },
        }
    }
}

/// The chain for an address is non-empty exactly when some module holds
/// a procedure whose address range contains it.
pub proof fn lemma_find_frames_nonempty_iff(ctx: Addr2LineContext, address: u32)
    ensures
        spec_find_frames(ctx, address).len() > 0 <==> exists|i: int|
            0 <= i < ctx.modules@.len() && module_covers(ctx.modules@[i], address),
{
    lemma_find_frames_mods_nonempty(ctx.modules@, address);
}

proof fn lemma_find_frames_mods_match(mods: Seq<ModuleDebugInfo>, address: u32, mi: int)
    requires
        0 <= mi < mods.len(),
        module_covers(mods[mi], address),
        forall|j: int| 0 <= j < mi ==> !module_covers(mods[j], address),
    ensures
        spec_find_frames_mods(mods, address) == spec_proc_frames(
            mods[mi],
            spec_first_proc(mods[mi].symbols@, address).unwrap(),
            address,
        ),
    decreases mods.len(),
{
    if mi == 0 {
    } else {
        assert(!module_covers(mods[0], address));
        assert(forall|j: int| 0 <= j < mi - 1 ==> mods.drop_first()[j] == mods[j + 1]);
        lemma_find_frames_mods_match(mods.drop_first(), address, mi - 1);
        assert(mods.drop_first()[mi - 1] == mods[mi]);
    }
}

proof fn lemma_inline_frames_shape(
    symbols: Seq<Symbol>,
    k: int,
    address: u32,
    inlinees: Seq<Inlinee>,
    files: Seq<FileEntry>,
)
    ensures
        forall|i: int|
            0 <= i < spec_inline_frames_from(symbols, k, address, inlinees, files).len()
                ==> (#[trigger] spec_inline_frames_from(symbols, k, address, inlinees, files)[i])
                .function is Some && spec_inline_frames_from(
                symbols,
                k,
                address,
                inlinees,
                files,
            )[i].location is Some,
    decreases symbols.len() - k,
{
    if k < 0 || k >= symbols.len() {
    } else {
        lemma_inline_frames_shape(symbols, k + 1, address, inlinees, files);
        match symbols[k] {
            Symbol::InlineSite(site) => {
                let rest = spec_inline_frames_from(symbols, k + 1, address, inlinees, files);
                match spec_inline_frame(site, address, inlinees, files) {
                    Some(f) => {
                        assert(f.function is Some && f.location is Some);
                        assert(forall|i: int|
                            0 < i < (seq![f] + rest).len() ==> (seq![f] + rest)[i] == rest[i - 1]);
                    },
                    None => {},
                }
            },
            _ => {},
        }
    }
}

/// Shape of a non-empty chain: the last frame belongs to the physical
/// procedure that covers the address — it is always named, and its
/// location is the procedure's own covering line record. Every earlier
/// frame is an inline frame and carries both a name and a location,
/// so no frame of a covered address has both fields absent.
pub proof fn lemma_frame_chain_shape(ctx: Addr2LineContext, address: u32, mi: int)
    requires
        0 <= mi < ctx.modules@.len(),
        module_covers(ctx.modules@[mi], address),
        forall|j: int| 0 <= j < mi ==> !module_covers(ctx.modules@[j], address),
    ensures
        ({
            let frames = spec_find_frames(ctx, address);
            let m = ctx.modules@[mi];
            let idx = spec_first_proc(m.symbols@, address).unwrap();
            let p = symbol_proc(m.symbols@[idx]);
            &&& frames.len() > 0
            &&& frames.last() == spec_outer_frame(p, address, m.files@)
            &&& frames.last().function == Some(p.name)
            &&& frames.drop_last() == spec_inline_frames_from(
                m.symbols@,
                idx + 1,
                address,
                m.inlinees@,
                m.files@,
            ).reverse()
            &&& forall|i: int|
                0 <= i < frames.len() - 1 ==> (#[trigger] frames[i]).function is Some
                    && frames[i].location is Some
        }),
{
    let frames = spec_find_frames(ctx, address);
    let m = ctx.modules@[mi];
    let idx = spec_first_proc(m.symbols@, address).unwrap();
    let p = symbol_proc(m.symbols@[idx]);
    lemma_find_frames_mods_match(ctx.modules@, address, mi);
    let outer = spec_outer_frame(p, address, m.files@);
    let inl = spec_inline_frames_from(m.symbols@, idx + 1, address, m.inlinees@, m.files@);
    let whole = seq![outer] + inl;
    assert(frames == whole.reverse());
    assert(whole[0] == outer);
    assert(frames.last() == whole[0]);
    assert(frames.drop_last() =~= inl.reverse()) by {
        assert(forall|i: int| 0 <= i < inl.len() ==> whole[i + 1] == inl[i]);
    }
    lemma_inline_frames_shape(m.symbols@, idx + 1, address, m.inlinees@, m.files@);
    assert(forall|i: int|
        0 <= i < frames.len() - 1 ==> #[trigger] frames[i] == inl[inl.len() - 1 - i]);
}

/// The chain is a pure function of the debug-data snapshot and the
/// address: any two results for the same snapshot and address are
/// identical, so repeated `find_frames` calls agree.
pub proof fn lemma_find_frames_pure(
    ctx: Addr2LineContext,
    address: u32,
    r1: Seq<Frame>,
    r2: Seq<Frame>,
)
    requires
        r1 == spec_find_frames(ctx, address),
        r2 == spec_find_frames(ctx, address),
    ensures
        r1 == r2,
{
}

fn file_lookup_exec(files: &Vec<FileEntry>, index: u32) -> (r: Option<String>)
    ensures
        r == file_lookup(files@, index),
{
    let n = files.len();
    let mut i: usize = 0;
    proof {
        assert(files@.skip(0) =~= files@);
    }
    while i < n
        invariant
            n == files@.len(),
            0 <= i <= n,
            file_lookup(files@, index) == file_lookup(files@.skip(i as int), index),
        decreases n - i,
    {
        proof {
            assert(files@.skip(i as int)[0] == files@[i as int]);
            assert(files@.skip(i as int).drop_first() =~= files@.skip(i as int + 1));
        }
        if files[i].index == index {
            return match &files[i].name {
                Some(s) => Some(s.clone()),
                None => None,
            };
        }
        i = i + 1;
    }
    proof {
        assert(files@.skip(n as int) =~= Seq::<FileEntry>::empty());
    }
    None
}

fn line_info_to_location(line_info: LineRecord, files: &Vec<FileEntry>) -> (r: Location)
    ensures
        r == spec_location(line_info, files@),
{
    let file = file_lookup_exec(files, line_info.file_index);
    Location { file, line: Some(line_info.line_start), column: line_info.column_start }
}

fn frames_for_address_for_inline_symbol(
    site: &InlineSiteSym,
    address: u32,
    inlinees: &Vec<Inlinee>,
    files: &Vec<FileEntry>,
) -> (r: Option<Frame>)
    ensures
        r == spec_inline_frame(*site, address, inlinees@, files@),
{
    let n = inlinees.len();
    let mut i: usize = 0;
    proof {
        assert(inlinees@.skip(0) =~= inlinees@);
    }
    while i < n
        invariant
            n == inlinees@.len(),
            0 <= i <= n,
            inlinee_lookup(inlinees@, site.inlinee_id) == inlinee_lookup(
                inlinees@.skip(i as int),
                site.inlinee_id,
            ),
        decreases n - i,
    {
        proof {
            assert(inlinees@.skip(i as int)[0] == inlinees@[i as int]);
            assert(inlinees@.skip(i as int).drop_first() =~= inlinees@.skip(i as int + 1));
        }
        if inlinees[i].id == site.inlinee_id {
            let line_info = match find_by_explicit_length(&site.lines, address) {
                Some(line_info) => line_info,
                None => {
                    return None;
                },
            };
            let function = Some(inlinees[i].name.clone());
            let location = line_info_to_location(line_info, files);
            return Some(Frame { function, location: Some(location) });
        }
        i = i + 1;
    }
    proof {
        assert(inlinees@.skip(n as int) =~= Seq::<Inlinee>::empty());
    }
    None
}

fn reversed_frames(v: Vec<Frame>) -> (r: Vec<Frame>)
    ensures
        r@ == v@.reverse(),
{
    let n = v.len();
    let mut r: Vec<Frame> = Vec::new();
    let mut i: usize = n;
    while i > 0
        invariant
            n == v@.len(),
            0 <= i <= n,
            r@.len() == n - i,
            forall|j: int| 0 <= j < r@.len() ==> r@[j] == v@[n - 1 - j],
        decreases i,
    {
        i = i - 1;
        let f = v[i].clone();
        r.push(f);
    }
    proof {
        assert(r@ =~= v@.reverse());
    }
    r
}

impl Addr2LineContext {
    /// A resolver over the given per-module debug data.
    pub fn new(modules: Vec<ModuleDebugInfo>) -> (r: Self)
        ensures
            r.modules == modules,
    {
        Addr2LineContext { modules }
    }

    /// The inline-expanded call chain covering `address`, innermost
    /// frame first, from the first module holding a covering procedure;
    /// empty when no module covers the address.
    pub fn find_frames(&self, address: u32) -> (r: Vec<Frame>)
        ensures
            r@ == spec_find_frames(*self, address),
    {
        let nm = self.modules.len();
        let mut mi: usize = 0;
        proof {
            assert(self.modules@.skip(0) =~= self.modules@);
        }
        while mi < nm
            invariant
                nm == self.modules@.len(),
                0 <= mi <= nm,
                spec_find_frames(*self, address) == spec_find_frames_mods(
                    self.modules@.skip(mi as int),
                    address,
                ),
            decreases nm - mi,
        {
            proof {
                assert(self.modules@.skip(mi as int)[0] == self.modules@[mi as int]);
                assert(self.modules@.skip(mi as int).drop_first() =~= self.modules@.skip(
                    mi as int + 1,
                ));
            }
            let module = &self.modules[mi];
            if let Some(symbol_index) = first_covering_procedure(module, address) {
                proof {
                    lemma_first_proc_from_props(module.symbols@, address, 0);
                }
                return self.find_frames_from_procedure(address, module, symbol_index);
            }
            mi = mi + 1;
        }
        proof {
            assert(self.modules@.skip(nm as int) =~= Seq::<ModuleDebugInfo>::empty());
        }
        Vec::new()
    }

    /// The frame chain for the procedure at `symbol_index` of `module`:
    /// the procedure's own frame plus one frame for every following
    /// inline-site symbol (up to the next procedure) whose line records
    /// cover `address`, reversed into innermost-first order.
    pub fn find_frames_from_procedure(
        &self,
        address: u32,
        module: &ModuleDebugInfo,
        symbol_index: usize,
    ) -> (r: Vec<Frame>)
        requires
            symbol_index < module.symbols@.len(),
            is_procedure(module.symbols@[symbol_index as int]),
        ensures
            r@ == spec_proc_frames(*module, symbol_index as int, address),
    {
        let ghost p = symbol_proc(module.symbols@[symbol_index as int]);
        let proc: &ProcSym = match &module.symbols[symbol_index] {
            Symbol::Procedure(proc) => proc,
            _ => unreached(),
        };
        let function = Some(proc.name.clone());

        let outer_end: u64 = match proc.start_rva {
            Some(rva) => rva as u64 + proc.len as u64,
            None => 0,
        };
        let location = match find_by_implicit_end(&proc.lines, address, outer_end) {
            Some(line_info) => Some(line_info_to_location(line_info, &module.files)),
            None => None,
        };

        // Ordered outside to inside, until just before the end of this function.
        let mut frames: Vec<Frame> = Vec::new();
        frames.push(Frame { function, location });

        let ghost outer = spec_outer_frame(p, address, module.files@);
        proof {
            assert(frames@ =~= seq![outer]);
        }

        let n = module.symbols.len();
        let mut k = symbol_index + 1;
        while k < n
            invariant
                n == module.symbols@.len(),
                symbol_index < k <= n,
                seq![outer] + spec_inline_frames_from(
                    module.symbols@,
                    symbol_index as int + 1,
                    address,
                    module.inlinees@,
                    module.files@,
                ) == frames@ + spec_inline_frames_from(
                    module.symbols@,
                    k as int,
                    address,
                    module.inlinees@,
                    module.files@,
                ),
            decreases n - k,
        {
            match &module.symbols[k] {
                Symbol::Procedure(_) => {
                    // The start of the procedure after the one we care about: no
                    // later symbol contributes, so the walk can stop here.
                    proof {
                        assert(spec_inline_frames_from(
                            module.symbols@,
                            n as int,
                            address,
                            module.inlinees@,
                            module.files@,
                        ) =~= Seq::<Frame>::empty());
                        assert(spec_inline_frames_from(
                            module.symbols@,
                            k as int,
                            address,
                            module.inlinees@,
                            module.files@,
                        ) =~= Seq::<Frame>::empty());
                    }
                    k = n;
                },
                Symbol::InlineSite(site) => {
                    if let Some(frame) = frames_for_address_for_inline_symbol(
                        site,
                        address,
                        &module.inlinees,
                        &module.files,
                    ) {
                        let ghost frames_before = frames@;
                        let ghost f = frame;
                        frames.push(frame);
                        proof {
                            let rest = spec_inline_frames_from(
                                module.symbols@,
                                k as int + 1,
                                address,
                                module.inlinees@,
                                module.files@,
                            );
                            assert(frames@ =~= frames_before + seq![f]);
                            assert((frames_before + seq![f]) + rest =~= frames_before + (seq![f]
                                + rest));
                        }
                    }
                    k = k + 1;
                },
                Symbol::Other => {
                    k = k + 1;
                },
            }
        }
        proof {
            assert(spec_inline_frames_from(
                module.symbols@,
                n as int,
                address,
                module.inlinees@,
                module.files@,
            ) =~= Seq::<Frame>::empty());
            assert(frames@ + Seq::<Frame>::empty() =~= frames@);
        }
        // Now order from inside to outside.
        let r = reversed_frames(frames);
        proof {
            assert(r@ == spec_proc_frames(*module, symbol_index as int, address));
        }
        r
    }
}

fn first_covering_procedure(module: &ModuleDebugInfo, address: u32) -> (r: Option<usize>)
    ensures
        match r {
            Some(i) => spec_first_proc(module.symbols@, address) == Some(i as int),
            None => spec_first_proc(module.symbols@, address) is None,
        },
{
    let n = module.symbols.len();
    let mut k: usize = 0;
    while k < n
        invariant
            n == module.symbols@.len(),
            0 <= k <= n,
            spec_first_proc(module.symbols@, address) == spec_first_proc_from(
                module.symbols@,
                address,
                k as int,
            ),
        decreases n - k,
    {
        if let Symbol::Procedure(proc) = &module.symbols[k] {
            if let Some(rva) = proc.start_rva {
                let end: u64 = rva as u64 + proc.len as u64;
                if rva <= address && (address as u64) < end {
                    return Some(k);
                }
            }
        }
        k = k + 1;
    }
    None
}

} // verus!
