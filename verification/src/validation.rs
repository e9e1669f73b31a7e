//! Validation of a parsed schema before it is lowered.
//!
//! Every declaration is checked, the expressions in the prompts of functions
//! are type checked, and everything that is wrong is reported. Only
//! a schema that is otherwise sound is searched for classes that require one
//! another in a cycle, since the search presumes that names resolve.
use vstd::prelude::*;
use crate::ast;
use crate::ast::FieldArity;
use crate::ast::ParserDatabase;
use crate::ast::Span;
use crate::entities::lower_client;
use crate::entities::lower_field;
use crate::entities::lower_retry_policy;
use crate::entities::lower_template_string;
use crate::entities::lowered_client;
use crate::entities::lowered_field;
use crate::entities::lowered_retry_policy;
use crate::entities::lowered_template_string;
use crate::functions::lower_function;
use crate::functions::lower_test_case;
use crate::functions::lowered_function;
use crate::functions::lowered_test_case;
use crate::graph::cycle_components;
use crate::graph::find_components;
use crate::graph::leaders;
use crate::graph::lemma_component_members;
use crate::graph::lemma_component_starts_with_leader;
use crate::graph::node_lists;
use crate::graph::rows;
use crate::lowering::LoweringError;
use crate::lowering::LoweringErrorKind;
use crate::prompts::check_prompts;
use crate::prompts::prompt_findings;
use crate::prompts::PromptFinding;
use crate::prompts::PromptFindingView;
use crate::seqs::concat_all;
use crate::seqs::views;

verus! {

/// What is wrong with a schema.
#[derive(Clone, Copy, Debug, PartialEq, Eq, Structural)]
pub enum ValidationErrorKind {
    /// A declaration that cannot be lowered.
    Lowering(LoweringErrorKind),
    /// A value of an enum with the name of an earlier value.
    DuplicateEnumValue,
    /// A client that names a retry policy that is not declared.
    UnknownRetryPolicy,
    /// A test that names a function that is not declared.
    UnknownFunction,
    /// Classes that require one another, so that no value of them is finite.
    InfiniteCycle,
}

/// A finding of validation with the place where it was found.
#[derive(Clone, Copy, Debug, PartialEq, Eq, Structural)]
pub struct ValidationError {
    pub kind: ValidationErrorKind,
    pub span: Span,
}

/// The findings of validation so far.
#[derive(Debug, PartialEq, Eq)]
pub struct Diagnostics {
    /// What is wrong with the declarations.
    pub errors: Vec<ValidationError>,
    /// What is wrong with the expressions in the prompts of functions.
    pub prompt_errors: Vec<PromptFinding>,
}

impl Diagnostics {
    /// No findings.
    pub fn new() -> (r: Diagnostics)
        ensures
            r.errors@ == Seq::<ValidationError>::empty(),
            r.prompt_errors@ == Seq::<PromptFinding>::empty(),
    {
        Diagnostics { errors: Vec::new(), prompt_errors: Vec::new() }
    }

    /// Whether anything was found.
    pub fn has_errors(&self) -> (r: bool)
        ensures
            r == (self.errors@.len() > 0 || self.prompt_errors@.len() > 0),
    {
        self.errors.len() > 0 || self.prompt_errors.len() > 0
    }
}

/// A schema under validation with the findings so far.
#[derive(Debug)]
pub struct Context<'a> {
    pub db: &'a ParserDatabase,
    pub diagnostics: Diagnostics,
}

/// The finding for a declaration that fails to lower; none if it lowers.
pub open spec fn lowering_finding<V>(r: Result<V, LoweringError>) -> Seq<ValidationError> {
    match r {
        Ok(_) => Seq::empty(),
        Err(e) => seq![ValidationError { kind: ValidationErrorKind::Lowering(e.kind), span: e.span }],
    }
}

/// Whether one of the first `n` values has the given name.
pub open spec fn value_named(values: Seq<ast::EnumValueDecl>, n: int, name: Seq<char>) -> bool {
    exists|i: int| 0 <= i < n && i < values.len() && (#[trigger] values[i]).name@ == name
}

/// The findings for the first `n` values of an enum: one for each value with
/// the name of an earlier value.
pub open spec fn value_findings(values: Seq<ast::EnumValueDecl>, n: int) -> Seq<ValidationError>
    decreases n,
{
    if n <= 0 {
        Seq::empty()
    } else {
        let rest = value_findings(values, n - 1);
        if value_named(values, n - 1, values[n - 1].name@) {
            rest.push(
                ValidationError {
                    kind: ValidationErrorKind::DuplicateEnumValue,
                    span: values[n - 1].span,
                },
            )
        } else {
            rest
        }
    }
}

/// The findings for each enum.
pub open spec fn enum_parts(db: ParserDatabase) -> Seq<Seq<ValidationError>> {
    Seq::new(
        db.enums@.len(),
        |i: int| value_findings(db.enums@[i].values@, db.enums@[i].values@.len() as int),
    )
}

/// The findings for each field of a class.
pub open spec fn field_parts(c: ast::ClassDecl, db: ParserDatabase) -> Seq<Seq<ValidationError>> {
    Seq::new(c.fields@.len(), |i: int| lowering_finding(lowered_field(c.fields@[i], db)))
}

/// The findings for each class: those of its fields.
pub open spec fn class_parts(db: ParserDatabase) -> Seq<Seq<ValidationError>> {
    Seq::new(db.classes@.len(), |i: int| concat_all(field_parts(db.classes@[i], db)))
}

/// The findings for each function.
pub open spec fn function_parts(db: ParserDatabase) -> Seq<Seq<ValidationError>> {
    Seq::new(
        db.functions@.len(),
        |i: int| lowering_finding(lowered_function(db.functions@[i], db)),
    )
}

/// Whether a retry policy of the given name is declared.
pub open spec fn policy_declared(db: ParserDatabase, name: Seq<char>) -> bool {
    exists|i: int| 0 <= i < db.retry_policies@.len() && (#[trigger] db.retry_policies@[i]).name@
        == name
}

/// The findings for a client: that it does not lower, and that its retry
/// policy is not declared.
pub open spec fn client_findings(c: ast::ClientDecl, db: ParserDatabase) -> Seq<ValidationError> {
    lowering_finding(lowered_client(c)) + match c.retry_policy {
        Some(policy) => if policy_declared(db, policy.0@) {
            Seq::empty()
        } else {
            seq![
                ValidationError { kind: ValidationErrorKind::UnknownRetryPolicy, span: policy.1 },
            ]
        },
        None => Seq::empty(),
    }
}

/// The findings for each client.
pub open spec fn client_parts(db: ParserDatabase) -> Seq<Seq<ValidationError>> {
    Seq::new(db.clients@.len(), |i: int| client_findings(db.clients@[i], db))
}

/// The findings for each template string.
pub open spec fn template_parts(db: ParserDatabase) -> Seq<Seq<ValidationError>> {
    Seq::new(
        db.template_strings@.len(),
        |i: int| lowering_finding(lowered_template_string(db.template_strings@[i], db)),
    )
}

/// The findings for each retry policy.
pub open spec fn policy_parts(db: ParserDatabase) -> Seq<Seq<ValidationError>> {
    Seq::new(
        db.retry_policies@.len(),
        |i: int| lowering_finding(lowered_retry_policy(db.retry_policies@[i])),
    )
}

/// Whether a function of the given name is declared.
pub open spec fn function_declared(db: ParserDatabase, name: Seq<char>) -> bool {
    exists|i: int| 0 <= i < db.functions@.len() && (#[trigger] db.functions@[i]).name@ == name
}

/// The findings for the first `n` functions that a test names: one for each
/// that is not declared.
pub open spec fn reference_findings(t: ast::TestDecl, db: ParserDatabase, n: int) -> Seq<
    ValidationError,
>
    decreases n,
{
    if n <= 0 {
        Seq::empty()
    } else {
        let rest = reference_findings(t, db, n - 1);
        if function_declared(db, t.functions@[n - 1].0@) {
            rest
        } else {
            rest.push(
                ValidationError {
                    kind: ValidationErrorKind::UnknownFunction,
                    span: t.functions@[n - 1].1,
                },
            )
        }
    }
}

/// The findings for a test: the functions it names that are not declared, and
/// that it does not lower.
pub open spec fn test_findings(t: ast::TestDecl, db: ParserDatabase) -> Seq<ValidationError> {
    reference_findings(t, db, t.functions@.len() as int) + lowering_finding(lowered_test_case(t))
}

/// The findings for each test.
pub open spec fn test_parts(db: ParserDatabase) -> Seq<Seq<ValidationError>> {
    Seq::new(db.tests@.len(), |i: int| test_findings(db.tests@[i], db))
}

/// The findings for the declarations of a schema, kind by kind: enums, classes,
/// functions, clients, template strings, then retry policies and tests.
pub open spec fn declaration_findings(db: ParserDatabase) -> Seq<ValidationError> {
    concat_all(enum_parts(db)) + concat_all(class_parts(db)) + concat_all(function_parts(db))
        + concat_all(client_parts(db)) + concat_all(template_parts(db)) + (concat_all(
        policy_parts(db),
    ) + concat_all(test_parts(db)))
}

/// A value of the type cannot exist without a value of the class: the type is
/// the class, required, or a required tuple with such a member.
pub open spec fn requires_class(t: ast::FieldType, name: Seq<char>) -> bool
    decreases t,
{
    match t {
        ast::FieldType::Symbol(FieldArity::Required, n, _, _) => n@ == name,
        ast::FieldType::Tuple(FieldArity::Required, ts, _, _) => exists|i: int|
            0 <= i < ts@.len() && requires_class(#[trigger] ts@[i], name),
        _ => false,
    }
}

/// A value of the class cannot exist without a value of the class `name`.
pub open spec fn class_requires(c: ast::ClassDecl, name: Seq<char>) -> bool {
    exists|f: int|
        0 <= f < c.fields@.len() && (#[trigger] c.fields@[f]).expr is Some && requires_class(
            c.fields@[f].expr->0,
            name,
        )
}

/// The graph of the classes that require one another.
pub open spec fn required_graph(classes: Seq<ast::ClassDecl>) -> Seq<Seq<bool>> {
    Seq::new(
        classes.len(),
        |u: int| Seq::new(classes.len(), |v: int| class_requires(classes[u], classes[v].name@)),
    )
}

/// The findings for the classes that require one another in a cycle: one for
/// each such cycle, at its first class.
pub open spec fn cycle_findings(db: ParserDatabase) -> Seq<ValidationError> {
    Seq::new(
        cycle_components(required_graph(db.classes@)).len(),
        |k: int|
            ValidationError {
                kind: ValidationErrorKind::InfiniteCycle,
                span: db.classes@[leaders(required_graph(db.classes@))[k]].span,
            },
    )
}

/// The findings for the declarations after those that were there: the
/// findings for the declarations of the schema, and, if there is then no
/// finding at all, neither for a declaration nor for a prompt, those for
/// cycles.
pub open spec fn validated(
    before: Seq<ValidationError>,
    prompts_before: Seq<PromptFindingView>,
    db: ParserDatabase,
) -> Seq<ValidationError> {
    let checked = before + declaration_findings(db);
    if checked.len() == 0 && (prompts_before + prompt_findings(db)).len() == 0 {
        checked + cycle_findings(db)
    } else {
        checked
    }
}

fn report_lowering<T>(errors: &mut Vec<ValidationError>, r: &Result<T, LoweringError>)
    ensures
        final(errors)@ == old(errors)@ + lowering_finding(*r),
{
    let ghost before = errors@;
    match r {
        Ok(_) => {
            assert(before =~= before + lowering_finding(*r));
        },
        Err(e) => {
            errors.push(
                ValidationError { kind: ValidationErrorKind::Lowering(e.kind), span: e.span },
            );
            assert(errors@ =~= before + lowering_finding(*r));
        },
    }
}

fn check_values(values: &Vec<ast::EnumValueDecl>, errors: &mut Vec<ValidationError>)
    ensures
        final(errors)@ == old(errors)@ + value_findings(values@, values@.len() as int),
{
    let ghost before = errors@;
    let mut n: usize = 0;
    assert(before =~= before + value_findings(values@, 0));
    while n < values.len()
        invariant
            n <= values.len(),
            errors@ == before + value_findings(values@, n as int),
        decreases values.len() - n,
    {
        let ghost sofar = value_findings(values@, n as int);
        let mut seen = false;
        let mut i: usize = 0;
        while i < n
            invariant
                i <= n,
                n < values.len(),
                seen == value_named(values@, i as int, values@[n as int].name@),
            decreases n - i,
        {
            if values[i].name == values[n].name {
                seen = true;
            }
            i += 1;
        }
        if seen {
            let finding = ValidationError {
                kind: ValidationErrorKind::DuplicateEnumValue,
                span: values[n].span,
            };
            errors.push(finding);
            assert(errors@ =~= before + sofar.push(finding));
        }
        n += 1;
    }
}

fn validate_enums(ctx: &mut Context<'_>)
    ensures
        final(ctx).db == old(ctx).db,
        final(ctx).diagnostics.prompt_errors == old(ctx).diagnostics.prompt_errors,
        final(ctx).diagnostics.errors@ == old(ctx).diagnostics.errors@ + concat_all(
            enum_parts(*old(ctx).db),
        ),
{
    let ghost before = ctx.diagnostics.errors@;
    let ghost parts = enum_parts(*ctx.db);
    let db = ctx.db;
    let mut i: usize = 0;
    assert(before =~= before + concat_all(parts.take(0)));
    while i < db.enums.len()
        invariant
            i <= db.enums.len(),
            db == ctx.db,
            ctx.diagnostics.prompt_errors == old(ctx).diagnostics.prompt_errors,
            parts == enum_parts(*db),
            ctx.diagnostics.errors@ == before + concat_all(parts.take(i as int)),
        decreases db.enums.len() - i,
    {
        let ghost sofar = concat_all(parts.take(i as int));
        proof {
            assert(parts.take(i + 1).drop_last() =~= parts.take(i as int));
            assert(parts.take(i + 1).last() == parts[i as int]);
        }
        check_values(&db.enums[i].values, &mut ctx.diagnostics.errors);
        assert(ctx.diagnostics.errors@ =~= before + (sofar + parts[i as int]));
        i += 1;
    }
    assert(parts.take(db.enums.len() as int) =~= parts);
}

fn check_fields(c: &ast::ClassDecl, db: &ParserDatabase, errors: &mut Vec<ValidationError>)
    ensures
        final(errors)@ == old(errors)@ + concat_all(field_parts(*c, *db)),
{
    let ghost before = errors@;
    let ghost parts = field_parts(*c, *db);
    let mut i: usize = 0;
    assert(before =~= before + concat_all(parts.take(0)));
    while i < c.fields.len()
        invariant
            i <= c.fields.len(),
            parts == field_parts(*c, *db),
            errors@ == before + concat_all(parts.take(i as int)),
        decreases c.fields.len() - i,
    {
        let ghost sofar = concat_all(parts.take(i as int));
        proof {
            assert(parts.take(i + 1).drop_last() =~= parts.take(i as int));
            assert(parts.take(i + 1).last() == parts[i as int]);
        }
        let r = lower_field(&c.fields[i], db);
        report_lowering(errors, &r);
        assert(lowering_finding(r) == parts[i as int]);
        assert(errors@ =~= before + (sofar + parts[i as int]));
        i += 1;
    }
    assert(parts.take(c.fields.len() as int) =~= parts);
}

fn validate_classes(ctx: &mut Context<'_>)
    ensures
        final(ctx).db == old(ctx).db,
        final(ctx).diagnostics.prompt_errors == old(ctx).diagnostics.prompt_errors,
        final(ctx).diagnostics.errors@ == old(ctx).diagnostics.errors@ + concat_all(
            class_parts(*old(ctx).db),
        ),
{
    let ghost before = ctx.diagnostics.errors@;
    let ghost parts = class_parts(*ctx.db);
    let db = ctx.db;
    let mut i: usize = 0;
    assert(before =~= before + concat_all(parts.take(0)));
    while i < db.classes.len()
        invariant
            i <= db.classes.len(),
            db == ctx.db,
            ctx.diagnostics.prompt_errors == old(ctx).diagnostics.prompt_errors,
            parts == class_parts(*db),
            ctx.diagnostics.errors@ == before + concat_all(parts.take(i as int)),
        decreases db.classes.len() - i,
    {
        let ghost sofar = concat_all(parts.take(i as int));
        proof {
            assert(parts.take(i + 1).drop_last() =~= parts.take(i as int));
            assert(parts.take(i + 1).last() == parts[i as int]);
        }
        check_fields(&db.classes[i], db, &mut ctx.diagnostics.errors);
        assert(ctx.diagnostics.errors@ =~= before + (sofar + parts[i as int]));
        i += 1;
    }
    assert(parts.take(db.classes.len() as int) =~= parts);
}

fn validate_functions(ctx: &mut Context<'_>)
    ensures
        final(ctx).db == old(ctx).db,
        final(ctx).diagnostics.prompt_errors == old(ctx).diagnostics.prompt_errors,
        final(ctx).diagnostics.errors@ == old(ctx).diagnostics.errors@ + concat_all(
            function_parts(*old(ctx).db),
        ),
{
    let ghost before = ctx.diagnostics.errors@;
    let ghost parts = function_parts(*ctx.db);
    let db = ctx.db;
    let mut i: usize = 0;
    assert(before =~= before + concat_all(parts.take(0)));
    while i < db.functions.len()
        invariant
            i <= db.functions.len(),
            db == ctx.db,
            ctx.diagnostics.prompt_errors == old(ctx).diagnostics.prompt_errors,
            parts == function_parts(*db),
            ctx.diagnostics.errors@ == before + concat_all(parts.take(i as int)),
        decreases db.functions.len() - i,
    {
        let ghost sofar = concat_all(parts.take(i as int));
        proof {
            assert(parts.take(i + 1).drop_last() =~= parts.take(i as int));
            assert(parts.take(i + 1).last() == parts[i as int]);
        }
        let r = lower_function(&db.functions[i], db);
        report_lowering(&mut ctx.diagnostics.errors, &r);
        assert(lowering_finding(r) == parts[i as int]);
        assert(ctx.diagnostics.errors@ =~= before + (sofar + parts[i as int]));
        i += 1;
    }
    assert(parts.take(db.functions.len() as int) =~= parts);
}

fn declares_policy(db: &ParserDatabase, name: &String) -> (r: bool)
    ensures
        r == policy_declared(*db, name@),
{
    let mut i: usize = 0;
    while i < db.retry_policies.len()
        invariant
            i <= db.retry_policies.len(),
            forall|j: int| 0 <= j < i ==> (#[trigger] db.retry_policies@[j]).name@ != name@,
        decreases db.retry_policies.len() - i,
    {
        if db.retry_policies[i].name == *name {
            return true;
        }
        i += 1;
    }
    false
}

fn declares_function(db: &ParserDatabase, name: &String) -> (r: bool)
    ensures
        r == function_declared(*db, name@),
{
    let mut i: usize = 0;
    while i < db.functions.len()
        invariant
            i <= db.functions.len(),
            forall|j: int| 0 <= j < i ==> (#[trigger] db.functions@[j]).name@ != name@,
        decreases db.functions.len() - i,
    {
        if db.functions[i].name == *name {
            return true;
        }
        i += 1;
    }
    false
}

fn check_client(c: &ast::ClientDecl, db: &ParserDatabase, errors: &mut Vec<ValidationError>)
    ensures
        final(errors)@ == old(errors)@ + client_findings(*c, *db),
{
    let ghost before = errors@;
    let r = lower_client(c);
    report_lowering(errors, &r);
    let ghost middle = errors@;
    match &c.retry_policy {
        Some(policy) => {
            if !declares_policy(db, &policy.0) {
                errors.push(
                    ValidationError {
                        kind: ValidationErrorKind::UnknownRetryPolicy,
                        span: policy.1,
                    },
                );
            }
        },
        None => {},
    }
    assert(errors@ =~= before + client_findings(*c, *db));
}

fn validate_clients(ctx: &mut Context<'_>)
    ensures
        final(ctx).db == old(ctx).db,
        final(ctx).diagnostics.prompt_errors == old(ctx).diagnostics.prompt_errors,
        final(ctx).diagnostics.errors@ == old(ctx).diagnostics.errors@ + concat_all(
            client_parts(*old(ctx).db),
        ),
{
    let ghost before = ctx.diagnostics.errors@;
    let ghost parts = client_parts(*ctx.db);
    let db = ctx.db;
    let mut i: usize = 0;
    assert(before =~= before + concat_all(parts.take(0)));
    while i < db.clients.len()
        invariant
            i <= db.clients.len(),
            db == ctx.db,
            ctx.diagnostics.prompt_errors == old(ctx).diagnostics.prompt_errors,
            parts == client_parts(*db),
            ctx.diagnostics.errors@ == before + concat_all(parts.take(i as int)),
        decreases db.clients.len() - i,
    {
        let ghost sofar = concat_all(parts.take(i as int));
        proof {
            assert(parts.take(i + 1).drop_last() =~= parts.take(i as int));
            assert(parts.take(i + 1).last() == parts[i as int]);
        }
        check_client(&db.clients[i], db, &mut ctx.diagnostics.errors);
        assert(ctx.diagnostics.errors@ =~= before + (sofar + parts[i as int]));
        i += 1;
    }
    assert(parts.take(db.clients.len() as int) =~= parts);
}

fn validate_template_strings(ctx: &mut Context<'_>)
    ensures
        final(ctx).db == old(ctx).db,
        final(ctx).diagnostics.prompt_errors == old(ctx).diagnostics.prompt_errors,
        final(ctx).diagnostics.errors@ == old(ctx).diagnostics.errors@ + concat_all(
            template_parts(*old(ctx).db),
        ),
{
    let ghost before = ctx.diagnostics.errors@;
    let ghost parts = template_parts(*ctx.db);
    let db = ctx.db;
    let mut i: usize = 0;
    assert(before =~= before + concat_all(parts.take(0)));
    while i < db.template_strings.len()
        invariant
            i <= db.template_strings.len(),
            db == ctx.db,
            ctx.diagnostics.prompt_errors == old(ctx).diagnostics.prompt_errors,
            parts == template_parts(*db),
            ctx.diagnostics.errors@ == before + concat_all(parts.take(i as int)),
        decreases db.template_strings.len() - i,
    {
        let ghost sofar = concat_all(parts.take(i as int));
        proof {
            assert(parts.take(i + 1).drop_last() =~= parts.take(i as int));
            assert(parts.take(i + 1).last() == parts[i as int]);
        }
        let r = lower_template_string(&db.template_strings[i], db);
        report_lowering(&mut ctx.diagnostics.errors, &r);
        assert(lowering_finding(r) == parts[i as int]);
        assert(ctx.diagnostics.errors@ =~= before + (sofar + parts[i as int]));
        i += 1;
    }
    assert(parts.take(db.template_strings.len() as int) =~= parts);
}

fn check_test(t: &ast::TestDecl, db: &ParserDatabase, errors: &mut Vec<ValidationError>)
    ensures
        final(errors)@ == old(errors)@ + test_findings(*t, *db),
{
    let ghost before = errors@;
    let mut n: usize = 0;
    assert(before =~= before + reference_findings(*t, *db, 0));
    while n < t.functions.len()
        invariant
            n <= t.functions.len(),
            errors@ == before + reference_findings(*t, *db, n as int),
        decreases t.functions.len() - n,
    {
        let ghost sofar = reference_findings(*t, *db, n as int);
        if !declares_function(db, &t.functions[n].0) {
            let finding = ValidationError {
                kind: ValidationErrorKind::UnknownFunction,
                span: t.functions[n].1,
            };
            errors.push(finding);
            assert(errors@ =~= before + sofar.push(finding));
        }
        n += 1;
    }
    let r = lower_test_case(t);
    report_lowering(errors, &r);
    assert(errors@ =~= before + test_findings(*t, *db));
}

fn validate_configurations(ctx: &mut Context<'_>)
    ensures
        final(ctx).db == old(ctx).db,
        final(ctx).diagnostics.prompt_errors == old(ctx).diagnostics.prompt_errors,
        final(ctx).diagnostics.errors@ == old(ctx).diagnostics.errors@ + (concat_all(
            policy_parts(*old(ctx).db),
        ) + concat_all(test_parts(*old(ctx).db))),
{
    let ghost before = ctx.diagnostics.errors@;
    let ghost parts = policy_parts(*ctx.db);
    let db = ctx.db;
    let mut i: usize = 0;
    assert(before =~= before + concat_all(parts.take(0)));
    while i < db.retry_policies.len()
        invariant
            i <= db.retry_policies.len(),
            db == ctx.db,
            ctx.diagnostics.prompt_errors == old(ctx).diagnostics.prompt_errors,
            parts == policy_parts(*db),
            ctx.diagnostics.errors@ == before + concat_all(parts.take(i as int)),
        decreases db.retry_policies.len() - i,
    {
        let ghost sofar = concat_all(parts.take(i as int));
        proof {
            assert(parts.take(i + 1).drop_last() =~= parts.take(i as int));
            assert(parts.take(i + 1).last() == parts[i as int]);
        }
        let r = lower_retry_policy(&db.retry_policies[i]);
        report_lowering(&mut ctx.diagnostics.errors, &r);
        assert(lowering_finding(r) == parts[i as int]);
        assert(ctx.diagnostics.errors@ =~= before + (sofar + parts[i as int]));
        i += 1;
    }
    assert(parts.take(db.retry_policies.len() as int) =~= parts);
    let ghost middle = ctx.diagnostics.errors@;
    let ghost tests = test_parts(*ctx.db);
    let mut k: usize = 0;
    assert(middle =~= middle + concat_all(tests.take(0)));
    while k < db.tests.len()
        invariant
            k <= db.tests.len(),
            db == ctx.db,
            ctx.diagnostics.prompt_errors == old(ctx).diagnostics.prompt_errors,
            tests == test_parts(*db),
            ctx.diagnostics.errors@ == middle + concat_all(tests.take(k as int)),
        decreases db.tests.len() - k,
    {
        let ghost sofar = concat_all(tests.take(k as int));
        proof {
            assert(tests.take(k + 1).drop_last() =~= tests.take(k as int));
            assert(tests.take(k + 1).last() == tests[k as int]);
        }
        check_test(&db.tests[k], db, &mut ctx.diagnostics.errors);
        assert(ctx.diagnostics.errors@ =~= middle + (sofar + tests[k as int]));
        k += 1;
    }
    assert(tests.take(db.tests.len() as int) =~= tests);
    assert(ctx.diagnostics.errors@ =~= before + (concat_all(parts) + concat_all(tests)));
}

#[verifier::loop_isolation(false)]
fn type_requires(t: &ast::FieldType, name: &String) -> (r: bool)
    ensures
        r == requires_class(*t, name@),
    decreases t,
{
    match t {
        ast::FieldType::Symbol(FieldArity::Required, n, _, _) => *n == *name,
        ast::FieldType::Tuple(FieldArity::Required, ts, _, _) => {
            let mut i: usize = 0;
            while i < ts.len()
                invariant
                    i <= ts.len(),
                    forall|j: int| 0 <= j < i ==> !requires_class(#[trigger] ts@[j], name@),
                    forall|j: int| 0 <= j < ts@.len() ==> decreases_to!(t => ts@[j]),
                decreases ts.len() - i,
            {
                if type_requires(&ts[i], name) {
                    assert(requires_class(ts@[i as int], name@));
                    return true;
                }
                i += 1;
            }
            false
        },
        _ => false,
    }
}

fn requires_name(c: &ast::ClassDecl, name: &String) -> (r: bool)
    ensures
        r == class_requires(*c, name@),
{
    let mut f: usize = 0;
    while f < c.fields.len()
        invariant
            f <= c.fields.len(),
            forall|j: int|
                0 <= j < f ==> !((#[trigger] c.fields@[j]).expr is Some && requires_class(
                    c.fields@[j].expr->0,
                    name@,
                )),
        decreases c.fields.len() - f,
    {
        match &c.fields[f].expr {
            Some(t) => {
                if type_requires(t, name) {
                    return true;
                }
            },
            None => {},
        }
        f += 1;
    }
    false
}

fn build_required_graph(classes: &Vec<ast::ClassDecl>) -> (g: Vec<Vec<bool>>)
    ensures
        rows(g@) == required_graph(classes@),
{
    let n = classes.len();
    let mut g: Vec<Vec<bool>> = Vec::new();
    let mut u: usize = 0;
    while u < n
        invariant
            n == classes@.len(),
            u <= n,
            g@.len() == u,
            forall|a: int| 0 <= a < u ==> (#[trigger] g@[a])@ == required_graph(classes@)[a],
        decreases n - u,
    {
        let mut row: Vec<bool> = Vec::new();
        let mut v: usize = 0;
        while v < n
            invariant
                n == classes@.len(),
                u < n,
                v <= n,
                row@.len() == v,
                forall|b: int|
                    0 <= b < v ==> (#[trigger] row@[b]) == class_requires(
                        classes@[u as int],
                        classes@[b].name@,
                    ),
            decreases n - v,
        {
            let r = requires_name(&classes[u], &classes[v].name);
            row.push(r);
            v += 1;
        }
        assert(row@ =~= required_graph(classes@)[u as int]);
        let ghost before = g@;
        g.push(row);
        assert(forall|a: int| 0 <= a < u ==> g@[a] == before[a]);
        u += 1;
    }
    assert(rows(g@) =~= required_graph(classes@));
    g
}

fn validate_cycles(ctx: &mut Context<'_>)
    ensures
        final(ctx).db == old(ctx).db,
        final(ctx).diagnostics.prompt_errors == old(ctx).diagnostics.prompt_errors,
        final(ctx).diagnostics.errors@ == old(ctx).diagnostics.errors@ + cycle_findings(
            *old(ctx).db,
        ),
{
    let ghost before = ctx.diagnostics.errors@;
    let db = ctx.db;
    let g = build_required_graph(&db.classes);
    let ghost m = required_graph(db.classes@);
    let ghost findings = cycle_findings(*db);
    let components = find_components(&g);
    let mut k: usize = 0;
    assert(before =~= before + findings.take(0));
    while k < components.len()
        invariant
            k <= components.len(),
            db == ctx.db,
            ctx.diagnostics.prompt_errors == old(ctx).diagnostics.prompt_errors,
            m == required_graph(db.classes@),
            m.len() == db.classes@.len(),
            findings == cycle_findings(*db),
            node_lists(components@) == cycle_components(m),
            ctx.diagnostics.errors@ == before + findings.take(k as int),
        decreases components.len() - k,
    {
        proof {
            lemma_component_starts_with_leader(m, k as int);
            lemma_component_members(m, k as int);
            assert(node_lists(components@)[k as int] == cycle_components(m)[k as int]);
            assert(node_lists(components@)[k as int][0] == components@[k as int]@[0] as int);
        }
        let first = components[k][0];
        let ghost sofar = findings.take(k as int);
        let finding = ValidationError {
            kind: ValidationErrorKind::InfiniteCycle,
            span: db.classes[first].span,
        };
        ctx.diagnostics.errors.push(finding);
        assert(findings.take(k + 1) =~= sofar.push(finding));
        assert(ctx.diagnostics.errors@ =~= before + findings.take(k + 1));
        k += 1;
    }
    assert(findings.take(components.len() as int) =~= findings);
}

/// Validates a schema.
///
/// The declarations are checked kind by kind, and with the functions the
/// expressions of their prompts are type checked; every finding is added to
/// those of the context. The search for classes that require one another in a
/// cycle is made only if the context then holds no finding at all.
pub fn validate(ctx: &mut Context<'_>)
    ensures
        final(ctx).db == old(ctx).db,
        final(ctx).diagnostics.errors@ == validated(
            old(ctx).diagnostics.errors@,
            views(old(ctx).diagnostics.prompt_errors@),
            *old(ctx).db,
        ),
        views(final(ctx).diagnostics.prompt_errors@) == views(old(ctx).diagnostics.prompt_errors@)
            + prompt_findings(*old(ctx).db),
{
    let ghost before = ctx.diagnostics.errors@;
    validate_enums(ctx);
    validate_classes(ctx);
    validate_functions(ctx);
    let ghost middle = ctx.diagnostics.errors@;
    check_prompts(ctx.db, &mut ctx.diagnostics.prompt_errors);
    assert(ctx.diagnostics.errors@ == middle);
    validate_clients(ctx);
    validate_template_strings(ctx);
    validate_configurations(ctx);
    assert(ctx.diagnostics.errors@ =~= before + declaration_findings(*ctx.db));
    if !ctx.diagnostics.has_errors() {
        validate_cycles(ctx);
    }
}

} // verus!
