use perfrecord::addr2line::Addr2LineContext;
use perfrecord::addr2line::FileEntry;
use perfrecord::addr2line::Inlinee;
use perfrecord::addr2line::InlineSiteSym;
use perfrecord::addr2line::ModuleDebugInfo;
use perfrecord::addr2line::ProcSym;
use perfrecord::addr2line::Symbol;
use perfrecord::line_search::fallible_once;
use perfrecord::line_search::find_by_explicit_length;
use perfrecord::line_search::find_by_implicit_end;
use perfrecord::line_search::LineRecord;

fn record(rva: u32, length: Option<u32>, file_index: u32, line_start: u32, column_start: Option<u32>) -> LineRecord {
    LineRecord { rva, length, file_index, line_start, column_start }
}

fn foo_proc() -> ProcSym {
    ProcSym {
        name: "foo".to_string(),
        type_index: 0,
        start_rva: Some(0x1000),
        len: 0x50,
        lines: vec![record(0x1000, None, 1, 10, None)],
    }
}

fn module_one_proc() -> ModuleDebugInfo {
    ModuleDebugInfo {
        symbols: vec![Symbol::Procedure(foo_proc())],
        files: vec![FileEntry { index: 1, name: Some("a.c".to_string()) }],
        inlinees: vec![],
    }
}

fn module_with_inline() -> ModuleDebugInfo {
    ModuleDebugInfo {
        symbols: vec![
            Symbol::Procedure(foo_proc()),
            Symbol::InlineSite(InlineSiteSym {
                inlinee_id: 7,
                lines: vec![record(0x1010, Some(0x10), 2, 42, Some(3))],
            }),
        ],
        files: vec![
            FileEntry { index: 1, name: Some("a.c".to_string()) },
            FileEntry { index: 2, name: Some("b.c".to_string()) },
        ],
        inlinees: vec![Inlinee { id: 7, name: "bar".to_string() }],
    }
}

#[test]
fn single_procedure_no_inlines() {
    let ctx = Addr2LineContext::new(vec![module_one_proc()]);
    let frames = ctx.find_frames(0x1020);
    assert_eq!(frames.len(), 1);
    assert_eq!(frames[0].function.as_deref(), Some("foo"));
    let loc = frames[0].location.as_ref().unwrap();
    assert_eq!(loc.file.as_deref(), Some("a.c"));
    assert_eq!(loc.line, Some(10));
    assert_eq!(loc.column, None);
}

#[test]
fn inline_site_innermost_first() {
    let ctx = Addr2LineContext::new(vec![module_with_inline()]);
    let frames = ctx.find_frames(0x1018);
    assert_eq!(frames.len(), 2);
    assert_eq!(frames[0].function.as_deref(), Some("bar"));
    let loc0 = frames[0].location.as_ref().unwrap();
    assert_eq!(loc0.file.as_deref(), Some("b.c"));
    assert_eq!(loc0.line, Some(42));
    assert_eq!(loc0.column, Some(3));
    assert_eq!(frames[1].function.as_deref(), Some("foo"));
    let loc1 = frames[1].location.as_ref().unwrap();
    assert_eq!(loc1.file.as_deref(), Some("a.c"));
    assert_eq!(loc1.line, Some(10));
    assert_eq!(loc1.column, None);
}

#[test]
fn address_below_every_procedure() {
    let ctx = Addr2LineContext::new(vec![module_with_inline()]);
    let frames = ctx.find_frames(0x0FFF);
    assert!(frames.is_empty());
}

#[test]
fn start_of_procedure_is_inside() {
    let ctx = Addr2LineContext::new(vec![module_one_proc()]);
    let frames = ctx.find_frames(0x1000);
    assert_eq!(frames.len(), 1);
    assert_eq!(frames[0].function.as_deref(), Some("foo"));
}

#[test]
fn end_of_procedure_is_outside() {
    let ctx = Addr2LineContext::new(vec![module_one_proc()]);
    let frames = ctx.find_frames(0x1050);
    assert!(frames.is_empty());
}

#[test]
fn no_modules_no_frames() {
    let ctx = Addr2LineContext::new(vec![]);
    let frames = ctx.find_frames(0x1020);
    assert!(frames.is_empty());
}

#[test]
fn repeated_queries_agree() {
    let ctx = Addr2LineContext::new(vec![module_with_inline()]);
    let first = ctx.find_frames(0x1018);
    let second = ctx.find_frames(0x1018);
    assert_eq!(first, second);
    let empty1 = ctx.find_frames(0x0FFF);
    let empty2 = ctx.find_frames(0x0FFF);
    assert_eq!(empty1, empty2);
}

#[test]
fn inline_site_not_covering_contributes_nothing() {
    // The inline site's sized record covers 0x1010..0x1020 only.
    let ctx = Addr2LineContext::new(vec![module_with_inline()]);
    let frames = ctx.find_frames(0x1030);
    assert_eq!(frames.len(), 1);
    assert_eq!(frames[0].function.as_deref(), Some("foo"));
}

#[test]
fn unknown_inlinee_contributes_nothing() {
    let mut module = module_with_inline();
    module.inlinees.clear();
    let ctx = Addr2LineContext::new(vec![module]);
    let frames = ctx.find_frames(0x1018);
    assert_eq!(frames.len(), 1);
    assert_eq!(frames[0].function.as_deref(), Some("foo"));
}

#[test]
fn first_matching_module_wins() {
    let mut other = module_one_proc();
    if let Symbol::Procedure(p) = &mut other.symbols[0] {
        p.name = "shadow".to_string();
    }
    let ctx = Addr2LineContext::new(vec![module_one_proc(), other]);
    let frames = ctx.find_frames(0x1020);
    assert_eq!(frames.len(), 1);
    assert_eq!(frames[0].function.as_deref(), Some("foo"));
}

#[test]
fn sized_search_skips_records_without_length() {
    let records = vec![
        record(0x1000, None, 1, 1, None),
        record(0x1000, Some(0x20), 1, 2, None),
    ];
    let found = find_by_explicit_length(&records, 0x1005).unwrap();
    assert_eq!(found.line_start, 2);

    let only_unsized = vec![record(0x1000, None, 1, 1, None)];
    assert!(find_by_explicit_length(&only_unsized, 0x1005).is_none());
}

#[test]
fn sized_search_half_open_bounds() {
    let records = vec![record(0x1000, Some(0x10), 1, 5, None)];
    assert!(find_by_explicit_length(&records, 0x1000).is_some());
    assert!(find_by_explicit_length(&records, 0x100F).is_some());
    assert!(find_by_explicit_length(&records, 0x1010).is_none());
}

#[test]
fn implicit_search_uses_next_record_start() {
    let records = vec![
        record(0x1000, None, 1, 1, None),
        record(0x1020, None, 1, 2, None),
    ];
    assert_eq!(find_by_implicit_end(&records, 0x101F, 0x1100).unwrap().line_start, 1);
    assert_eq!(find_by_implicit_end(&records, 0x1020, 0x1100).unwrap().line_start, 2);
    assert_eq!(find_by_implicit_end(&records, 0x10FF, 0x1100).unwrap().line_start, 2);
    assert!(find_by_implicit_end(&records, 0x1100, 0x1100).is_none());
    assert!(find_by_implicit_end(&records, 0x0FFF, 0x1100).is_none());
}

#[test]
fn fallible_once_yields_exactly_once() {
    let mut once = fallible_once::<u32, i32>(Ok(5));
    assert_eq!(once.next(), Ok(Some(5)));
    assert_eq!(once.next(), Ok(None));
    assert_eq!(once.next(), Ok(None));

    let mut failing = fallible_once::<u32, i32>(Err(-3));
    assert_eq!(failing.next(), Err(-3));
    assert_eq!(failing.next(), Ok(None));
}
