use semantics::resolver::{
    parse_annotation, resolve, Annotation, AnnotationKind, CaseDescriptor, RawAnnotation,
    RawValue, ResolutionError,
};

fn case(identifier: &str, position: u64, annotations: Vec<RawAnnotation>) -> CaseDescriptor {
    CaseDescriptor { identifier: identifier.to_string(), position, annotations }
}

fn name_ann(value: &str) -> RawAnnotation {
    RawAnnotation { key: "name".to_string(), value: RawValue::Str(value.to_string()) }
}

fn index_ann(value: u64) -> RawAnnotation {
    RawAnnotation { key: "index".to_string(), value: RawValue::Int(value) }
}

#[test]
fn name() {
    let cases = vec![
        case("Position", 0, vec![]),
        case("Normal", 1, vec![]),
        case("Color", 2, vec![]),
    ];
    let sem = resolve(&cases).unwrap();
    assert_eq!(sem[0].name, "position");
    assert_eq!(sem[1].name, "normal");
    assert_eq!(sem[2].name, "color");
}

#[test]
fn index() {
    let cases = vec![
        case("Position", 0, vec![]),
        case("Normal", 1, vec![]),
        case("Color", 2, vec![]),
    ];
    let sem = resolve(&cases).unwrap();
    assert_eq!(sem[0].index, 0);
    assert_eq!(sem[1].index, 1);
    assert_eq!(sem[2].index, 2);
}

#[test]
fn explicit_names() {
    let cases = vec![
        case("JustFoo", 0, vec![name_ann("foo")]),
        case("JustBar", 1, vec![name_ann("bar")]),
        case("Nothing", 2, vec![]),
    ];
    let sem = resolve(&cases).unwrap();
    assert_eq!(sem[0].name, "foo");
    assert_eq!(sem[1].name, "bar");
    assert_eq!(sem[2].name, "nothing");
}

#[test]
fn explicit_indices() {
    let cases = vec![
        case("Just14", 0, vec![index_ann(14)]),
        case("Just7", 1, vec![index_ann(7)]),
        case("Just0", 2, vec![index_ann(0)]),
    ];
    let sem = resolve(&cases).unwrap();
    assert_eq!(sem[0].index, 14);
    assert_eq!(sem[1].index, 7);
    assert_eq!(sem[2].index, 0);
}

#[test]
fn explicit_name_and_index() {
    let cases = vec![
        case("JustFoo14", 0, vec![name_ann("foo"), index_ann(14)]),
        case("JustBar7", 1, vec![name_ann("bar"), index_ann(7)]),
        case("Nothing0", 2, vec![index_ann(0)]),
    ];
    let sem = resolve(&cases).unwrap();
    assert_eq!(sem[0].name, "foo");
    assert_eq!(sem[1].name, "bar");
    assert_eq!(sem[2].name, "nothing_0");

    assert_eq!(sem[0].index, 14);
    assert_eq!(sem[1].index, 7);
    assert_eq!(sem[2].index, 0);
}

#[test]
fn empty_enumeration_resolves_to_nothing() {
    let sem = resolve(&vec![]).unwrap();
    assert_eq!(sem.len(), 0);
}

#[test]
fn identifiers_carry_over() {
    let cases = vec![case("JustFoo", 0, vec![name_ann("foo")]), case("Nothing", 1, vec![])];
    let sem = resolve(&cases).unwrap();
    assert_eq!(sem[0].identifier, "JustFoo");
    assert_eq!(sem[1].identifier, "Nothing");
}

#[test]
fn unknown_key_is_a_parse_error() {
    let bogus = RawAnnotation { key: "label".to_string(), value: RawValue::Str("x".to_string()) };
    let cases = vec![case("First", 0, vec![]), case("Second", 1, vec![name_ann("ok"), bogus])];
    match resolve(&cases) {
        Err(ResolutionError::ParseError { case, annotation }) => {
            assert_eq!(case, "Second");
            assert_eq!(annotation, 1);
        }
        other => panic!("expected a parse error, got {:?}", other),
    }
}

#[test]
fn wrong_literal_kind_is_a_parse_error() {
    let int_name = RawAnnotation { key: "name".to_string(), value: RawValue::Int(3) };
    let cases = vec![case("First", 0, vec![int_name])];
    match resolve(&cases) {
        Err(ResolutionError::ParseError { case, annotation }) => {
            assert_eq!(case, "First");
            assert_eq!(annotation, 0);
        }
        other => panic!("expected a parse error, got {:?}", other),
    }

    let str_index = RawAnnotation { key: "index".to_string(), value: RawValue::Str("7".to_string()) };
    let cases = vec![case("First", 0, vec![str_index])];
    assert!(matches!(resolve(&cases), Err(ResolutionError::ParseError { .. })));
}

#[test]
fn name_twice_is_a_duplicate() {
    let cases = vec![
        case("First", 0, vec![]),
        case("Second", 1, vec![name_ann("a"), name_ann("b")]),
    ];
    match resolve(&cases) {
        Err(ResolutionError::DuplicateAnnotation { case, kind }) => {
            assert_eq!(case, "Second");
            assert_eq!(kind, AnnotationKind::Name);
        }
        other => panic!("expected a duplicate-annotation error, got {:?}", other),
    }
}

#[test]
fn index_twice_is_a_duplicate() {
    let cases = vec![case("Only", 0, vec![index_ann(1), name_ann("x"), index_ann(2)])];
    match resolve(&cases) {
        Err(ResolutionError::DuplicateAnnotation { case, kind }) => {
            assert_eq!(case, "Only");
            assert_eq!(kind, AnnotationKind::Index);
        }
        other => panic!("expected a duplicate-annotation error, got {:?}", other),
    }
}

#[test]
fn parse_fault_beats_duplicate_within_a_case() {
    let bogus = RawAnnotation { key: "tag".to_string(), value: RawValue::Int(9) };
    let cases = vec![case("Only", 0, vec![index_ann(1), index_ann(2), bogus])];
    match resolve(&cases) {
        Err(ResolutionError::ParseError { case, annotation }) => {
            assert_eq!(case, "Only");
            assert_eq!(annotation, 2);
        }
        other => panic!("expected a parse error, got {:?}", other),
    }
}

#[test]
fn first_faulty_case_decides() {
    let bogus = RawAnnotation { key: "tag".to_string(), value: RawValue::Int(9) };
    let cases = vec![
        case("Fine", 0, vec![name_ann("fine")]),
        case("Doubled", 1, vec![name_ann("a"), name_ann("b")]),
        case("Broken", 2, vec![bogus]),
    ];
    match resolve(&cases) {
        Err(ResolutionError::DuplicateAnnotation { case, kind }) => {
            assert_eq!(case, "Doubled");
            assert_eq!(kind, AnnotationKind::Name);
        }
        other => panic!("expected a duplicate-annotation error, got {:?}", other),
    }
}

#[test]
fn partial_explicit_indexing_is_inconsistent() {
    let cases = vec![
        case("WithIndex", 0, vec![index_ann(3)]),
        case("Plain", 1, vec![]),
        case("AlsoPlain", 2, vec![name_ann("x")]),
    ];
    match resolve(&cases) {
        Err(ResolutionError::InconsistentExplicitIndexing { explicit_count, total_case_count }) => {
            assert_eq!(explicit_count, 1);
            assert_eq!(total_case_count, 3);
        }
        other => panic!("expected an inconsistent-indexing error, got {:?}", other),
    }
}

#[test]
fn resolution_is_idempotent() {
    let cases = vec![
        case("JustFoo14", 0, vec![name_ann("foo"), index_ann(14)]),
        case("Nothing0", 1, vec![index_ann(0)]),
    ];
    let first = resolve(&cases).unwrap();
    let second = resolve(&cases).unwrap();
    assert_eq!(first, second);
}

#[test]
fn annotation_recognition() {
    match parse_annotation(&name_ann("foo")) {
        Some(Annotation::Name(s)) => assert_eq!(s, "foo"),
        other => panic!("expected a name annotation, got {:?}", other),
    }
    match parse_annotation(&index_ann(14)) {
        Some(Annotation::Index(n)) => assert_eq!(n, 14),
        other => panic!("expected an index annotation, got {:?}", other),
    }
    let bogus = RawAnnotation { key: "tag".to_string(), value: RawValue::Int(9) };
    assert!(parse_annotation(&bogus).is_none());
}
