//! Resolution of per-case annotations into a name/index assignment.
//!
//! The input is an ordered sequence of case descriptors, one per case of a
//! closed enumeration. Each descriptor carries the case identifier, the
//! case's zero-based position, and the raw `key = value` items of its
//! annotation block. Resolution recognizes the keys `name` (a string) and
//! `index` (a non-negative integer), fills in defaults where a case carries
//! no explicit annotation, and validates the whole batch.

use vstd::prelude::*;

verus! {

/// The two annotation kinds a case may carry.
#[derive(Clone, Copy, Debug, PartialEq, Eq, Structural)]
pub enum AnnotationKind {
    Name,
    Index,
}

/// A raw literal value of one annotation item, as the extraction step hands
/// it over: either a string literal or a non-negative integer literal.
#[derive(Clone, Debug)]
pub enum RawValue {
    Str(String),
    Int(u64),
}

/// One raw `key = value` item of a case's annotation block, not yet
/// recognized: the key may be unknown and the value may be of the wrong
/// literal kind for its key.
#[derive(Clone, Debug)]
pub struct RawAnnotation {
    pub key: String,
    pub value: RawValue,
}

/// A recognized annotation: the closed set of things a case may declare.
#[derive(Clone, Debug)]
pub enum Annotation {
    /// An explicit name, used verbatim for the case.
    Name(String),
    /// An explicit index, used verbatim for the case.
    Index(u64),
}

/// One case of the enumeration, as handed to the resolver: its identifier,
/// its zero-based position in the declaration order (assigned by the caller,
/// never inferred here), and its raw annotation items in order.
#[derive(Clone, Debug)]
pub struct CaseDescriptor {
    pub identifier: String,
    pub position: u64,
    pub annotations: Vec<RawAnnotation>,
}

/// The resolver's output for one case: the identifier it came from and the
/// final name and index assigned to it.
#[derive(Clone, Debug, PartialEq, Eq)]
pub struct ResolvedCase {
    pub identifier: String,
    pub name: String,
    pub index: u64,
}

/// The full resolved mapping: one entry per input case, in input order.
pub type CaseSemantics = Vec<ResolvedCase>;

/// Why a batch of case descriptors was rejected. Resolution is
/// all-or-nothing: any failure aborts the whole enumeration.
#[derive(Debug)]
pub enum ResolutionError {
    /// An annotation item was not recognized: unknown key, or a value of the
    /// wrong literal kind for a known key. Names the case and the zero-based
    /// position of the offending item in that case's annotation block.
    ParseError { case: String, annotation: usize },
    /// A single case supplied the same annotation kind twice in its own
    /// annotation block.
    DuplicateAnnotation { case: String, kind: AnnotationKind },
    /// Some but not all cases carry an explicit index: either every case
    /// must, or none may.
    InconsistentExplicitIndexing { explicit_count: usize, total_case_count: usize },
}

/// The snake-case form of an identifier's characters, as the case conversion
/// underneath [`to_snake_case`] computes it.
pub uninterp spec fn snake_of(s: Seq<char>) -> Seq<char>;

/// Relies on `convert_case`: `Casing::to_case(.., Case::Snake)` converts an
/// identifier to lower snake case and is a pure function of the input
/// characters alone.
#[verifier::external_body]
fn to_snake_case(s: &str) -> (r: String)
    ensures
        r@ == snake_of(s@),
{
    convert_case::Casing::to_case(&s, convert_case::Case::Snake)
}

/// A raw item is a well-formed name annotation: key `name`, string value.
pub open spec fn is_name_ann(a: RawAnnotation) -> bool {
    a.key@ == "name"@ && a.value is Str
}

/// A raw item is a well-formed index annotation: key `index`, integer value.
pub open spec fn is_index_ann(a: RawAnnotation) -> bool {
    a.key@ == "index"@ && a.value is Int
}

/// A raw item is recognized at all.
pub open spec fn ann_ok(a: RawAnnotation) -> bool {
    is_name_ann(a) || is_index_ann(a)
}

/// The characters of a name annotation's value.
pub open spec fn name_value(a: RawAnnotation) -> Seq<char> {
    match a.value {
        RawValue::Str(s) => s@,
        RawValue::Int(_) => Seq::empty(),
    }
}

/// The number of an index annotation's value.
pub open spec fn index_value(a: RawAnnotation) -> u64 {
    match a.value {
        RawValue::Str(_) => 0,
        RawValue::Int(n) => n,
    }
}

/// Every raw item of one case's annotation block is recognized.
pub open spec fn case_parses(anns: Seq<RawAnnotation>) -> bool {
    forall|j: int| 0 <= j < anns.len() ==> ann_ok(#[trigger] anns[j])
}

/// The position of the first unrecognized item at or after `from`, or `-1`
/// when every item from there on is recognized.
pub open spec fn first_parse_fault(anns: Seq<RawAnnotation>, from: int) -> int
    decreases anns.len() - from,
{
    if from < 0 || from >= anns.len() {
        -1
    } else if !ann_ok(anns[from]) {
        from
    } else {
        first_parse_fault(anns, from + 1)
    }
}

/// Scan one case's recognized annotations for a repeated kind, starting at
/// `from` with the kinds already seen; the result is the kind of the first
/// repetition, if any.
pub open spec fn dup_scan(
    anns: Seq<RawAnnotation>,
    from: int,
    seen_name: bool,
    seen_index: bool,
) -> Option<AnnotationKind>
    decreases anns.len() - from,
{
    if from < 0 || from >= anns.len() {
        None
    } else if is_name_ann(anns[from]) {
        if seen_name {
            Some(AnnotationKind::Name)
        } else {
            dup_scan(anns, from + 1, true, seen_index)
        }
    } else if is_index_ann(anns[from]) {
        if seen_index {
            Some(AnnotationKind::Index)
        } else {
            dup_scan(anns, from + 1, seen_name, true)
        }
    } else {
        dup_scan(anns, from + 1, seen_name, seen_index)
    }
}

/// The kind of the first annotation a case repeats, if any.
pub open spec fn case_dup(anns: Seq<RawAnnotation>) -> Option<AnnotationKind> {
    dup_scan(anns, 0, false, false)
}

/// The value of the first name annotation at or after `from`, if any.
pub open spec fn name_scan(anns: Seq<RawAnnotation>, from: int) -> Option<Seq<char>>
    decreases anns.len() - from,
{
    if from < 0 || from >= anns.len() {
        None
    } else if is_name_ann(anns[from]) {
        Some(name_value(anns[from]))
    } else {
        name_scan(anns, from + 1)
    }
}

/// The value of the first index annotation at or after `from`, if any.
pub open spec fn index_scan(anns: Seq<RawAnnotation>, from: int) -> Option<u64>
    decreases anns.len() - from,
{
    if from < 0 || from >= anns.len() {
        None
    } else if is_index_ann(anns[from]) {
        Some(index_value(anns[from]))
    } else {
        index_scan(anns, from + 1)
    }
}

/// The explicit name a case declares, if any.
pub open spec fn explicit_name(anns: Seq<RawAnnotation>) -> Option<Seq<char>> {
    name_scan(anns, 0)
}

/// The explicit index a case declares, if any.
pub open spec fn explicit_index(anns: Seq<RawAnnotation>) -> Option<u64> {
    index_scan(anns, 0)
}

/// A case's annotation block is acceptable on its own: every item is
/// recognized and no kind is declared twice.
pub open spec fn case_ok(c: CaseDescriptor) -> bool {
    case_parses(c.annotations@) && case_dup(c.annotations@) is None
}

/// Every case's annotation block is acceptable on its own.
pub open spec fn all_cases_ok(cases: Seq<CaseDescriptor>) -> bool {
    forall|i: int| 0 <= i < cases.len() ==> case_ok(#[trigger] cases[i])
}

/// The position of the first unacceptable case at or after `from`, or `-1`.
pub open spec fn first_bad_case(cases: Seq<CaseDescriptor>, from: int) -> int
    decreases cases.len() - from,
{
    if from < 0 || from >= cases.len() {
        -1
    } else if !case_ok(cases[from]) {
        from
    } else {
        first_bad_case(cases, from + 1)
    }
}

/// The case declares an explicit index.
pub open spec fn has_explicit_index(c: CaseDescriptor) -> bool {
    explicit_index(c.annotations@) is Some
}

/// How many cases at or after `from` declare an explicit index.
pub open spec fn explicit_index_count(cases: Seq<CaseDescriptor>, from: int) -> int
    decreases cases.len() - from,
{
    if from < 0 || from >= cases.len() {
        0
    } else {
        (if has_explicit_index(cases[from]) {
            1int
        } else {
            0int
        }) + explicit_index_count(cases, from + 1)
    }
}

/// The name the resolver assigns to a case: its explicit name verbatim if it
/// declares one, else the snake-case form of its identifier.
pub open spec fn resolved_name(c: CaseDescriptor) -> Seq<char> {
    match explicit_name(c.annotations@) {
        Some(s) => s,
        None => snake_of(c.identifier@),
    }
}

/// The index the resolver assigns to a case: its explicit index verbatim if
/// it declares one, else its position.
pub open spec fn resolved_index(c: CaseDescriptor) -> u64 {
    match explicit_index(c.annotations@) {
        Some(n) => n,
        None => c.position,
    }
}

/// The resolver's output entry for one case is exactly what the input case
/// calls for.
pub open spec fn resolves_to(c: CaseDescriptor, r: ResolvedCase) -> bool {
    &&& r.identifier@ == c.identifier@
    &&& r.name@ == resolved_name(c)
    &&& r.index == resolved_index(c)
}

/// The whole contract of [`resolve`]: what each possible outcome says of the
/// input descriptor sequence, and on which inputs each outcome comes.
pub open spec fn resolve_post(
    cases: Seq<CaseDescriptor>,
    r: Result<CaseSemantics, ResolutionError>,
) -> bool {
    match r {
        Ok(out) => {
            &&& all_cases_ok(cases)
            &&& explicit_index_count(cases, 0) == 0 || explicit_index_count(cases, 0)
                == cases.len()
            &&& out@.len() == cases.len()
            &&& forall|i: int| 0 <= i < cases.len() ==> resolves_to(cases[i], #[trigger] out@[i])
        },
        Err(ResolutionError::ParseError { case, annotation }) => {
            let i = first_bad_case(cases, 0);
            &&& 0 <= i < cases.len()
            &&& !case_parses(cases[i].annotations@)
            &&& case@ == cases[i].identifier@
            &&& annotation as int == first_parse_fault(cases[i].annotations@, 0)
        },
        Err(ResolutionError::DuplicateAnnotation { case, kind }) => {
            let i = first_bad_case(cases, 0);
            &&& 0 <= i < cases.len()
            &&& case_parses(cases[i].annotations@)
            &&& case_dup(cases[i].annotations@) == Some(kind)
            &&& case@ == cases[i].identifier@
        },
        Err(ResolutionError::InconsistentExplicitIndexing { explicit_count, total_case_count }) => {
            &&& all_cases_ok(cases)
            &&& 0 < explicit_index_count(cases, 0) < cases.len()
            &&& explicit_count as int == explicit_index_count(cases, 0)
            &&& total_case_count == cases.len()
        },
    }
}

proof fn lemma_first_parse_fault_is(anns: Seq<RawAnnotation>, from: int, j: int)
    requires
        0 <= from <= j < anns.len(),
        forall|k: int| from <= k < j ==> ann_ok(#[trigger] anns[k]),
        !ann_ok(anns[j]),
    ensures
        first_parse_fault(anns, from) == j,
    decreases j - from,
{
    if from < j {
        lemma_first_parse_fault_is(anns, from + 1, j);
    }
}

proof fn lemma_first_bad_case_is(cases: Seq<CaseDescriptor>, from: int, i: int)
    requires
        0 <= from <= i < cases.len(),
        forall|k: int| from <= k < i ==> case_ok(#[trigger] cases[k]),
        !case_ok(cases[i]),
    ensures
        first_bad_case(cases, from) == i,
    decreases i - from,
{
    if from < i {
        lemma_first_bad_case_is(cases, from + 1, i);
    }
}

/// Recognize one raw `key = value` item. Returns the tagged annotation
/// exactly when the key is `name` with a string value or `index` with an
/// integer value, and nothing otherwise.
pub fn parse_annotation(raw: &RawAnnotation) -> (r: Option<Annotation>)
    ensures
        (r is Some) == ann_ok(*raw),
        match r {
            Some(a) => match a {
                Annotation::Name(s) => is_name_ann(*raw) && s@ == name_value(*raw),
                Annotation::Index(n) => is_index_ann(*raw) && n == index_value(*raw),
            },
            None => !ann_ok(*raw),
        },
{
    proof {
        reveal_strlit("name");
        reveal_strlit("index");
        assert("name"@.len() == 4);
        assert("index"@.len() == 5);
    }
    let name_key: String = "name".to_owned();
    let index_key: String = "index".to_owned();
    if raw.key == name_key {
        match &raw.value {
            RawValue::Str(s) => Some(Annotation::Name(s.clone())),
            RawValue::Int(_) => None,
        }
    } else if raw.key == index_key {
        match &raw.value {
            RawValue::Int(n) => Some(Annotation::Index(*n)),
            RawValue::Str(_) => None,
        }
    } else {
        None
    }
}

/// Why one case's annotation block was rejected on its own.
enum CaseFault {
    Parse { annotation: usize },
    Duplicate { kind: AnnotationKind },
}

/// Collect one case's annotation block: recognize every item, then take the
/// declared name and index, rejecting a repeated kind. Parse faults beat
/// duplicate faults, whatever their positions, since the block is recognized
/// as a whole before its declarations are read.
fn collect_case(c: &CaseDescriptor) -> (r: Result<(Option<String>, Option<u64>), CaseFault>)
    ensures
        match r {
            Ok((name, index)) => {
                &&& case_ok(*c)
                &&& match name {
                    Some(s) => explicit_name(c.annotations@) == Some(s@),
                    None => explicit_name(c.annotations@) is None,
                }
                &&& match index {
                    Some(n) => explicit_index(c.annotations@) == Some(n),
                    None => explicit_index(c.annotations@) is None,
                }
            },
            Err(CaseFault::Parse { annotation }) => {
                &&& !case_parses(c.annotations@)
                &&& annotation as int == first_parse_fault(c.annotations@, 0)
            },
            Err(CaseFault::Duplicate { kind }) => {
                &&& case_parses(c.annotations@)
                &&& case_dup(c.annotations@) == Some(kind)
            },
        },
{
    let n = c.annotations.len();
    let mut j: usize = 0;
    while j < n
        invariant
            n == c.annotations@.len(),
            j <= n,
            forall|k: int| 0 <= k < j ==> ann_ok(#[trigger] c.annotations@[k]),
        decreases n - j,
    {
        if parse_annotation(&c.annotations[j]).is_none() {
            proof {
                lemma_first_parse_fault_is(c.annotations@, 0, j as int);
            }
            return Err(CaseFault::Parse { annotation: j });
        }
        j += 1;
    }
    let mut name: Option<String> = None;
    let mut index: Option<u64> = None;
    let mut j: usize = 0;
    while j < n
        invariant
            n == c.annotations@.len(),
            j <= n,
            case_parses(c.annotations@),
            case_dup(c.annotations@) == dup_scan(
                c.annotations@,
                j as int,
                name is Some,
                index is Some,
            ),
            match name {
                Some(s) => explicit_name(c.annotations@) == Some(s@),
                None => explicit_name(c.annotations@) == name_scan(c.annotations@, j as int),
            },
            match index {
                Some(v) => explicit_index(c.annotations@) == Some(v),
                None => explicit_index(c.annotations@) == index_scan(c.annotations@, j as int),
            },
        decreases n - j,
    {
        match parse_annotation(&c.annotations[j]) {
            Some(Annotation::Name(s)) => {
                if name.is_some() {
                    return Err(CaseFault::Duplicate { kind: AnnotationKind::Name });
                }
                name = Some(s);
            },
            Some(Annotation::Index(v)) => {
                if index.is_some() {
                    return Err(CaseFault::Duplicate { kind: AnnotationKind::Index });
                }
                index = Some(v);
            },
            None => {
                return vstd::pervasive::unreached();
            },
        }
        j += 1;
    }
    Ok((name, index))
}

/// Resolve an enumeration's ordered case descriptors into its final
/// name/index mapping, or reject the whole batch.
///
/// Every raw annotation item must be recognized and no case may declare the
/// same kind twice; after that, either every case or no case may declare an
/// explicit index. On success the output holds one entry per case, in input
/// order: the explicit name, or else the snake-case form of the identifier;
/// the explicit index, or else the case's position.
pub fn resolve(cases: &Vec<CaseDescriptor>) -> (r: Result<CaseSemantics, ResolutionError>)
    ensures
        resolve_post(cases@, r),
{
    let total = cases.len();
    let mut out: Vec<ResolvedCase> = Vec::new();
    let mut explicit: usize = 0;
    let mut i: usize = 0;
    while i < total
        invariant
            total == cases@.len(),
            i <= total,
            explicit <= i,
            out@.len() == i,
            forall|k: int| 0 <= k < i ==> case_ok(#[trigger] cases@[k]),
            forall|k: int| 0 <= k < i ==> resolves_to(cases@[k], #[trigger] out@[k]),
            explicit as int + explicit_index_count(cases@, i as int) == explicit_index_count(
                cases@,
                0,
            ),
        decreases total - i,
    {
        let c = &cases[i];
        match collect_case(c) {
            Err(CaseFault::Parse { annotation }) => {
                proof {
                    lemma_first_bad_case_is(cases@, 0, i as int);
                }
                return Err(
                    ResolutionError::ParseError { case: c.identifier.clone(), annotation },
                );
            },
            Err(CaseFault::Duplicate { kind }) => {
                proof {
                    lemma_first_bad_case_is(cases@, 0, i as int);
                }
                return Err(
                    ResolutionError::DuplicateAnnotation { case: c.identifier.clone(), kind },
                );
            },
            Ok((name_opt, index_opt)) => {
                let has_explicit = index_opt.is_some();
                let index = match index_opt {
                    Some(n) => n,
                    None => c.position,
                };
                let name = match name_opt {
                    Some(s) => s,
                    None => to_snake_case(c.identifier.as_str()),
                };
                out.push(ResolvedCase { identifier: c.identifier.clone(), name, index });
                if has_explicit {
                    explicit += 1;
                }
            },
        }
        i += 1;
    }
    if 0 < explicit && explicit < total {
        return Err(
            ResolutionError::InconsistentExplicitIndexing {
                explicit_count: explicit,
                total_case_count: total,
            },
        );
    }
    Ok(out)
}

proof fn lemma_count_all(cases: Seq<CaseDescriptor>, from: int)
    requires
        0 <= from <= cases.len(),
        forall|i: int| from <= i < cases.len() ==> has_explicit_index(#[trigger] cases[i]),
    ensures
        explicit_index_count(cases, from) == cases.len() - from,
    decreases cases.len() - from,
{
    if from < cases.len() {
        lemma_count_all(cases, from + 1);
    }
}

proof fn lemma_count_at_least_one(cases: Seq<CaseDescriptor>, from: int, i: int)
    requires
        0 <= from <= i < cases.len(),
        has_explicit_index(cases[i]),
    ensures
        explicit_index_count(cases, from) >= 1,
    decreases i - from,
{
    if from < i {
        lemma_count_at_least_one(cases, from + 1, i);
    } else {
        lemma_count_nonnegative(cases, from + 1);
    }
}

proof fn lemma_count_nonnegative(cases: Seq<CaseDescriptor>, from: int)
    ensures
        explicit_index_count(cases, from) >= 0,
    decreases cases.len() - from,
{
    if 0 <= from < cases.len() {
        lemma_count_nonnegative(cases, from + 1);
    }
}

proof fn lemma_count_upper(cases: Seq<CaseDescriptor>, from: int)
    requires
        0 <= from <= cases.len(),
    ensures
        explicit_index_count(cases, from) <= cases.len() - from,
    decreases cases.len() - from,
{
    if from < cases.len() {
        lemma_count_upper(cases, from + 1);
    }
}

proof fn lemma_count_one_missing(cases: Seq<CaseDescriptor>, from: int, j: int)
    requires
        0 <= from <= j < cases.len(),
        !has_explicit_index(cases[j]),
    ensures
        explicit_index_count(cases, from) <= cases.len() - from - 1,
    decreases j - from,
{
    if from < j {
        lemma_count_one_missing(cases, from + 1, j);
    } else {
        lemma_count_upper(cases, from + 1);
    }
}

/// With no annotations anywhere and positions assigned in declaration order,
/// resolution succeeds, each name is the snake-case form of its identifier
/// and the indices are the positional order `0, 1, 2, ...`.
pub proof fn lemma_no_annotations_positional(
    cases: Seq<CaseDescriptor>,
    r: Result<CaseSemantics, ResolutionError>,
)
    requires
        resolve_post(cases, r),
        forall|i: int| 0 <= i < cases.len() ==> (#[trigger] cases[i]).annotations@.len() == 0,
        forall|i: int| 0 <= i < cases.len() ==> (#[trigger] cases[i]).position == i,
    ensures
        match r {
            Ok(out) => {
                &&& out@.len() == cases.len()
                &&& forall|i: int|
                    0 <= i < cases.len() ==> (#[trigger] out@[i]).name@ == snake_of(
                        cases[i].identifier@,
                    )
                &&& forall|i: int| 0 <= i < cases.len() ==> (#[trigger] out@[i]).index == i
            },
            Err(_) => false,
        },
{
    assert forall|i: int| 0 <= i < cases.len() implies !has_explicit_index(
        #[trigger] cases[i],
    ) by {
        assert(cases[i].annotations@.len() == 0);
    }
    lemma_count_zero(cases, 0);
}

proof fn lemma_count_zero(cases: Seq<CaseDescriptor>, from: int)
    requires
        0 <= from <= cases.len(),
        forall|i: int| from <= i < cases.len() ==> !has_explicit_index(#[trigger] cases[i]),
    ensures
        explicit_index_count(cases, from) == 0,
    decreases cases.len() - from,
{
    if from < cases.len() {
        lemma_count_zero(cases, from + 1);
    }
}

/// An explicit name is used verbatim for its case, whatever the identifier;
/// a case without one falls back to the snake-case form of its identifier.
pub proof fn lemma_explicit_names(
    cases: Seq<CaseDescriptor>,
    r: Result<CaseSemantics, ResolutionError>,
    i: int,
)
    requires
        resolve_post(cases, r),
        r is Ok,
        0 <= i < cases.len(),
    ensures
        match r {
            Ok(out) => {
                &&& (explicit_name(cases[i].annotations@) matches Some(s) ==> out@[i].name@ == s)
                &&& (explicit_name(cases[i].annotations@) is None ==> out@[i].name@ == snake_of(
                    cases[i].identifier@,
                ))
            },
            Err(_) => true,
        },
{
}

/// When every case declares an explicit index and every annotation block is
/// acceptable, resolution succeeds and each resolved index is the declared
/// number, verbatim, whatever the case's position.
pub proof fn lemma_explicit_indices(
    cases: Seq<CaseDescriptor>,
    r: Result<CaseSemantics, ResolutionError>,
)
    requires
        resolve_post(cases, r),
        all_cases_ok(cases),
        forall|i: int| 0 <= i < cases.len() ==> has_explicit_index(#[trigger] cases[i]),
    ensures
        match r {
            Ok(out) => forall|i: int|
                0 <= i < cases.len() ==> explicit_index(cases[i].annotations@) == Some(
                    (#[trigger] out@[i]).index,
                ),
            Err(_) => false,
        },
{
    lemma_count_all(cases, 0);
}

/// A strict non-empty, non-total subset of cases with explicit indices is
/// rejected as inconsistent, and the error reports the exact counts.
pub proof fn lemma_partial_explicit_indices_rejected(
    cases: Seq<CaseDescriptor>,
    r: Result<CaseSemantics, ResolutionError>,
)
    requires
        resolve_post(cases, r),
        all_cases_ok(cases),
        0 < explicit_index_count(cases, 0) < cases.len(),
    ensures
        r matches Err(ResolutionError::InconsistentExplicitIndexing {
            explicit_count,
            total_case_count,
        }) && explicit_count as int == explicit_index_count(cases, 0) && total_case_count
            == cases.len(),
{
}

/// As [`lemma_partial_explicit_indices_rejected`], stated from two witness
/// cases: one that declares an explicit index and one that does not.
pub proof fn lemma_mixed_explicit_indices_rejected(
    cases: Seq<CaseDescriptor>,
    r: Result<CaseSemantics, ResolutionError>,
    i: int,
    j: int,
)
    requires
        resolve_post(cases, r),
        all_cases_ok(cases),
        0 <= i < cases.len(),
        0 <= j < cases.len(),
        has_explicit_index(cases[i]),
        !has_explicit_index(cases[j]),
    ensures
        r matches Err(ResolutionError::InconsistentExplicitIndexing {
            explicit_count,
            total_case_count,
        }) && explicit_count as int == explicit_index_count(cases, 0) && total_case_count
            == cases.len(),
{
    lemma_count_at_least_one(cases, 0, i);
    lemma_count_one_missing(cases, 0, j);
    lemma_partial_explicit_indices_rejected(cases, r);
}

/// A case that repeats an annotation kind in its own block is rejected, and
/// the error names that case and the repeated kind. The first such case
/// decides, among cases whose blocks are otherwise acceptable.
pub proof fn lemma_duplicate_annotation_rejected(
    cases: Seq<CaseDescriptor>,
    r: Result<CaseSemantics, ResolutionError>,
    i: int,
)
    requires
        resolve_post(cases, r),
        0 <= i < cases.len(),
        forall|k: int| 0 <= k < i ==> case_ok(#[trigger] cases[k]),
        case_parses(cases[i].annotations@),
        case_dup(cases[i].annotations@) is Some,
    ensures
        r matches Err(ResolutionError::DuplicateAnnotation { case, kind }) && case@
            == cases[i].identifier@ && Some(kind) == case_dup(cases[i].annotations@),
{
    lemma_first_bad_case_is(cases, 0, i);
}

/// Explicit name and explicit index on one case are independent and
/// composable: each is used verbatim when present, and each falls back on
/// its own (the name to the snake-case identifier, the index to the
/// position) when absent.
pub proof fn lemma_name_index_independent(
    cases: Seq<CaseDescriptor>,
    r: Result<CaseSemantics, ResolutionError>,
    i: int,
)
    requires
        resolve_post(cases, r),
        r is Ok,
        0 <= i < cases.len(),
    ensures
        match r {
            Ok(out) => {
                &&& (explicit_name(cases[i].annotations@) matches Some(s) ==> out@[i].name@ == s)
                &&& (explicit_name(cases[i].annotations@) is None ==> out@[i].name@ == snake_of(
                    cases[i].identifier@,
                ))
                &&& (explicit_index(cases[i].annotations@) matches Some(n) ==> out@[i].index == n)
                &&& (explicit_index(cases[i].annotations@) is None ==> out@[i].index
                    == cases[i].position)
            },
            Err(_) => true,
        },
{
}

/// Two resolution results agree structurally: same outcome, and on success
/// entries whose identifiers, names and indices match pairwise.
pub open spec fn same_outcome(
    r1: Result<CaseSemantics, ResolutionError>,
    r2: Result<CaseSemantics, ResolutionError>,
) -> bool {
    match (r1, r2) {
        (Ok(a), Ok(b)) => {
            &&& a@.len() == b@.len()
            &&& forall|i: int|
                0 <= i < a@.len() ==> {
                    &&& (#[trigger] a@[i]).identifier@ == (#[trigger] b@[i]).identifier@
                    &&& a@[i].name@ == b@[i].name@
                    &&& a@[i].index == b@[i].index
                }
        },
        (
            Err(ResolutionError::ParseError { case: c1, annotation: a1 }),
            Err(ResolutionError::ParseError { case: c2, annotation: a2 }),
        ) => c1@ == c2@ && a1 == a2,
        (
            Err(ResolutionError::DuplicateAnnotation { case: c1, kind: k1 }),
            Err(ResolutionError::DuplicateAnnotation { case: c2, kind: k2 }),
        ) => c1@ == c2@ && k1 == k2,
        (
            Err(ResolutionError::InconsistentExplicitIndexing {
                explicit_count: e1,
                total_case_count: t1,
            }),
            Err(ResolutionError::InconsistentExplicitIndexing {
                explicit_count: e2,
                total_case_count: t2,
            }),
        ) => e1 == e2 && t1 == t2,
        _ => false,
    }
}

/// Resolution is a pure function of the descriptor sequence: any two results
/// that meet [`resolve`]'s contract on the same input are structurally
/// identical, outcome and content alike.
pub proof fn lemma_resolve_deterministic(
    cases: Seq<CaseDescriptor>,
    r1: Result<CaseSemantics, ResolutionError>,
    r2: Result<CaseSemantics, ResolutionError>,
)
    requires
        resolve_post(cases, r1),
        resolve_post(cases, r2),
    ensures
        same_outcome(r1, r2),
{
}

} // verus!
