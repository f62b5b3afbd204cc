//! The validator: it walks an instance along a schema and lists where the
//! instance departs from it.
use vstd::prelude::*;
use vstd::string::StringExecFns;
use crate::errors::{ErrorView, JddfError};
use crate::json::{items_view, members_view, Json, JsonView};
use crate::model::{find, has_key, is_first_key, lemma_position, SchemaView};
use crate::pointer::{pointer, pointer_text};
use crate::schema::{contains_key, includes, name_view, schemas_view, Form, Schema, Type};
use crate::semantics::{
    additional_parts, elements_parts, join, keyword, nothing, one, properties_parts, then,
    too_deep, validation, values_parts, Findings, TokenView, ValidationErrorView,
};
use crate::timestamp::is_timestamp;

verus! {

/// The limits of a validation run.
#[derive(Clone, Copy, Debug, PartialEq, Eq)]
pub struct Config {
    /// The run ends once it has found this many errors; 0 sets no limit.
    pub max_errors: usize,
    /// The run fails once it would follow more references than this, one
    /// inside the other.
    pub max_depth: usize,
}

impl Config {
    /// No limit on the errors, and references at most 32 deep.
    pub fn new() -> (config: Config)
        ensures
            config.max_errors == 0,
            config.max_depth == 32,
    {
        Config { max_errors: 0, max_depth: 32 }
    }

    /// The same limits but for the number of errors; 0 sets no limit.
    pub fn max_errors(self, max_errors: usize) -> (config: Config)
        ensures
            config == (Config { max_errors, ..self }),
    {
        Config { max_errors, max_depth: self.max_depth }
    }

    /// The same limits but for the depth of references.
    pub fn max_depth(self, max_depth: usize) -> (config: Config)
        ensures
            config == (Config { max_depth, ..self }),
    {
        Config { max_errors: self.max_errors, max_depth }
    }
}

impl Default for Config {
    fn default() -> (config: Config)
        ensures
            config.max_errors == 0,
            config.max_depth == 32,
    {
        Config::new()
    }
}

/// One step of a path: the key of a member, or the position of an element.
#[derive(Debug, PartialEq, Eq)]
pub enum Token {
    Key(String),
    Index(usize),
}

impl Token {
    pub open spec fn view(&self) -> TokenView {
        match *self {
            Token::Key(key) => TokenView::Key(key@),
            Token::Index(i) => TokenView::Index(i as nat),
        }
    }
}

impl Clone for Token {
    fn clone(&self) -> (copy: Token)
        ensures
            copy@ == self@,
    {
        match self {
            Token::Key(key) => Token::Key(key.clone()),
            Token::Index(index) => Token::Index(*index),
        }
    }
}

/// The value of a path.
pub open spec fn path_view(path: Seq<Token>) -> Seq<TokenView> {
    Seq::new(path.len(), |i: int| path[i]@)
}

/// One place where an instance departs from a schema.
#[derive(Debug, PartialEq, Eq)]
pub struct ValidationError {
    instance_path: Vec<Token>,
    schema_path: Vec<Token>,
}

impl ValidationError {
    pub closed spec fn view(&self) -> ValidationErrorView {
        ValidationErrorView {
            instance_path: path_view(self.instance_path@),
            schema_path: path_view(self.schema_path@),
        }
    }

    /// The path to the part of the instance that is at fault.
    pub fn instance_path(&self) -> (path: &Vec<Token>)
        ensures
            path_view(path@) == self@.instance_path,
    {
        &self.instance_path
    }

    /// The path to the part of the schema that is not met.
    pub fn schema_path(&self) -> (path: &Vec<Token>)
        ensures
            path_view(path@) == self@.schema_path,
    {
        &self.schema_path
    }

    /// The path into the instance as a JSON Pointer.
    pub fn instance_pointer(&self) -> (text: String)
        ensures
            text@ == pointer_text(self@.instance_path),
    {
        pointer(&self.instance_path)
    }

    /// The path into the schema as a JSON Pointer.
    pub fn schema_pointer(&self) -> (text: String)
        ensures
            text@ == pointer_text(self@.schema_path),
    {
        pointer(&self.schema_path)
    }
}

impl Clone for ValidationError {
    fn clone(&self) -> (copy: ValidationError)
        ensures
            copy@ == self@,
    {
        ValidationError {
            instance_path: clone_path(&self.instance_path),
            schema_path: clone_path(&self.schema_path),
        }
    }
}

/// The value of a list of errors.
pub open spec fn errors_view(errors: Seq<ValidationError>) -> Seq<ValidationErrorView> {
    Seq::new(errors.len(), |i: int| errors[i]@)
}

/// How an evaluation ended: it ran to its end, it stopped at the limit on
/// the errors, or it gave up because the references went too deep.
#[derive(Clone, Copy, PartialEq, Eq, Structural)]
enum Status {
    Continue,
    Stopped,
    Aborted,
}

/// The state of a run: the errors so far, the paths to where it stands, and
/// the number of references that it is inside of.
struct Run {
    errors: Vec<ValidationError>,
    instance_path: Vec<Token>,
    schema_path: Vec<Token>,
    depth: usize,
}

/// The value of the state of a run.
struct RunView {
    errors: Seq<ValidationErrorView>,
    instance_path: Seq<TokenView>,
    schema_path: Seq<TokenView>,
    depth: nat,
}

impl Run {
    spec fn view(&self) -> RunView {
        RunView {
            errors: errors_view(self.errors@),
            instance_path: path_view(self.instance_path@),
            schema_path: path_view(self.schema_path@),
            depth: self.depth as nat,
        }
    }
}

/// How the errors of a run change over an evaluation that finds `found` and
/// ends with `status`, under the limit `cap` (0 for none). An evaluation
/// that runs to its end adds what it finds and stays under the limit; one
/// that stops has reached the limit and leaves its first `cap` errors; one
/// that gives up went too deep before the limit.
spec fn moved(
    before: Seq<ValidationErrorView>,
    after: Seq<ValidationErrorView>,
    status: Status,
    found: Findings,
    cap: nat,
) -> bool {
    match status {
        Status::Continue => {
            &&& after == before + found.errors
            &&& !found.overflow
            &&& cap == 0 || after.len() < cap
        },
        Status::Stopped => {
            &&& cap > 0
            &&& before.len() + found.errors.len() >= cap
            &&& after == (before + found.errors).take(cap as int)
        },
        Status::Aborted => {
            &&& found.overflow
            &&& cap == 0 || before.len() + found.errors.len() < cap
        },
    }
}

/// An evaluation that finds nothing leaves the errors as they are.
proof fn lemma_moved_nothing(before: Seq<ValidationErrorView>, cap: nat)
    requires
        cap == 0 || before.len() < cap,
    ensures
        moved(before, before, Status::Continue, nothing(), cap),
{
    assert(before + nothing().errors =~= before);
}

/// Two evaluations, one after the other.
proof fn lemma_moved_then(
    e0: Seq<ValidationErrorView>,
    e1: Seq<ValidationErrorView>,
    e2: Seq<ValidationErrorView>,
    a: Findings,
    b: Findings,
    status: Status,
    cap: nat,
)
    requires
        moved(e0, e1, Status::Continue, a, cap),
        moved(e1, e2, status, b, cap),
    ensures
        moved(e0, e2, status, then(a, b), cap),
{
    assert((e0 + a.errors) + b.errors =~= e0 + (a.errors + b.errors));
}

/// What follows an evaluation that did not run to its end changes nothing.
proof fn lemma_moved_absorb(
    e0: Seq<ValidationErrorView>,
    e1: Seq<ValidationErrorView>,
    a: Findings,
    b: Findings,
    status: Status,
    cap: nat,
)
    requires
        moved(e0, e1, status, a, cap),
        status != Status::Continue,
    ensures
        moved(e0, e1, status, then(a, b), cap),
{
    if status == Status::Stopped && !a.overflow {
        assert((e0 + (a.errors + b.errors)).take(cap as int) =~= (e0 + a.errors).take(
            cap as int,
        ));
    }
}

/// The first `i + 1` evaluations of a sequence are the first `i` and then
/// the next.
proof fn lemma_join_step(parts: Seq<Findings>, i: int)
    requires
        0 <= i < parts.len(),
    ensures
        join(parts.take(i + 1)) == then(join(parts.take(i)), parts[i]),
{
    assert(parts.take(i + 1).drop_last() =~= parts.take(i));
}

/// Where the first `k` evaluations of a sequence did not run to their end,
/// the rest changes nothing.
proof fn lemma_moved_stuck(
    parts: Seq<Findings>,
    k: int,
    e0: Seq<ValidationErrorView>,
    e1: Seq<ValidationErrorView>,
    status: Status,
    cap: nat,
)
    requires
        0 <= k <= parts.len(),
        moved(e0, e1, status, join(parts.take(k)), cap),
        status != Status::Continue,
    ensures
        moved(e0, e1, status, join(parts), cap),
    decreases parts.len() - k,
{
    if k == parts.len() {
        assert(parts.take(k) =~= parts);
    } else {
        lemma_join_step(parts, k);
        lemma_moved_absorb(e0, e1, join(parts.take(k)), parts[k], status, cap);
        lemma_moved_stuck(parts, k + 1, e0, e1, status, cap);
    }
}

/// A copy of a path.
fn clone_path(path: &Vec<Token>) -> (copy: Vec<Token>)
    ensures
        path_view(copy@) == path_view(path@),
{
    let mut copy: Vec<Token> = Vec::new();
    let mut i: usize = 0;
    while i < path.len()
        invariant
            i <= path.len(),
            copy@.len() == i,
            forall|j: int| 0 <= j < i ==> (#[trigger] copy@[j])@ == path@[j]@,
        decreases path.len() - i,
    {
        copy.push(path[i].clone());
        i += 1;
    }
    assert(path_view(copy@) =~= path_view(path@));
    copy
}

impl Run {
    /// Goes one step down in the schema.
    fn enter_schema(&mut self, word: &str)
        ensures
            final(self)@ == (RunView {
                schema_path: old(self)@.schema_path.push(keyword(word)),
                ..old(self)@
            }),
    {
        self.schema_path.push(Token::Key(String::from_str(word)));
        assert(self@.schema_path =~= old(self)@.schema_path.push(keyword(word)));
    }

    /// Goes one step down in the schema, to a property or a branch.
    fn enter_schema_key(&mut self, key: &String)
        ensures
            final(self)@ == (RunView {
                schema_path: old(self)@.schema_path.push(TokenView::Key(key@)),
                ..old(self)@
            }),
    {
        self.schema_path.push(Token::Key(key.clone()));
        assert(self@.schema_path =~= old(self)@.schema_path.push(TokenView::Key(key@)));
    }

    /// Goes back up one step in the schema.
    fn leave_schema(&mut self)
        requires
            old(self)@.schema_path.len() > 0,
        ensures
            final(self)@ == (RunView {
                schema_path: old(self)@.schema_path.drop_last(),
                ..old(self)@
            }),
    {
        self.schema_path.pop();
        assert(self@.schema_path =~= old(self)@.schema_path.drop_last());
    }

    /// Goes one step down in the instance.
    fn enter_instance(&mut self, token: Token)
        ensures
            final(self)@ == (RunView {
                instance_path: old(self)@.instance_path.push(token@),
                ..old(self)@
            }),
    {
        self.instance_path.push(token);
        assert(self@.instance_path =~= old(self)@.instance_path.push(token@));
    }

    /// Goes back up one step in the instance.
    fn leave_instance(&mut self)
        requires
            old(self)@.instance_path.len() > 0,
        ensures
            final(self)@ == (RunView {
                instance_path: old(self)@.instance_path.drop_last(),
                ..old(self)@
            }),
    {
        self.instance_path.pop();
        assert(self@.instance_path =~= old(self)@.instance_path.drop_last());
    }

    /// Records an error at the place where the run stands.
    fn report(&mut self, cap: usize) -> (status: Status)
        requires
            cap == 0 || old(self)@.errors.len() < cap,
        ensures
            status != Status::Aborted,
            moved(
                old(self)@.errors,
                final(self)@.errors,
                status,
                one(old(self)@.instance_path, old(self)@.schema_path),
                cap as nat,
            ),
            final(self)@ == (RunView { errors: final(self)@.errors, ..old(self)@ }),
    {
        let error = ValidationError {
            instance_path: clone_path(&self.instance_path),
            schema_path: clone_path(&self.schema_path),
        };
        self.errors.push(error);
        proof {
            let found = one(old(self)@.instance_path, old(self)@.schema_path);
            assert(self@.errors =~= old(self)@.errors + found.errors);
            assert((old(self)@.errors + found.errors).take(self@.errors.len() as int)
                =~= self@.errors);
        }
        if cap != 0 && self.errors.len() >= cap {
            Status::Stopped
        } else {
            Status::Continue
        }
    }
}

impl Run {
    /// Records an error under one more keyword of the schema.
    fn fail(&mut self, cap: usize, word: &str) -> (status: Status)
        requires
            cap == 0 || old(self)@.errors.len() < cap,
        ensures
            status != Status::Aborted,
            moved(
                old(self)@.errors,
                final(self)@.errors,
                status,
                one(old(self)@.instance_path, old(self)@.schema_path.push(keyword(word))),
                cap as nat,
            ),
            status == Status::Continue ==> final(self)@ == (RunView {
                errors: final(self)@.errors,
                ..old(self)@
            }),
    {
        self.enter_schema(word);
        let status = self.report(cap);
        if status == Status::Continue {
            self.leave_schema();
            assert(self@.schema_path =~= old(self)@.schema_path);
        }
        status
    }
}

/// Each reference in each definition names one of the definitions.
spec fn defs_closed(defs: Seq<(Seq<char>, SchemaView)>) -> bool {
    forall|i: int| 0 <= i < defs.len() ==> (#[trigger] defs[i]).1.form.refs_resolve(defs)
}

/// Tells whether the instance is a number that is an integer from `lo` to
/// `hi`.
fn is_integer_in(instance: &Json, lo: i64, hi: i64) -> (b: bool)
    requires
        -0x20_0000_0000_0000 < lo,
        hi < 0x20_0000_0000_0000,
    ensures
        b == (instance@ matches JsonView::Number(n) && n.integer_in(lo as int, hi as int)),
{
    match instance {
        Json::Number(n) => match n.to_integer() {
            Some(v) => lo <= v && v <= hi,
            None => false,
        },
        _ => false,
    }
}

/// Tells whether the instance is a value of the primitive type.
pub fn type_matches(t: Type, instance: &Json) -> (b: bool)
    ensures
        b == crate::semantics::type_matches(t, instance@),
{
    match t {
        Type::Boolean => match instance {
            Json::Bool(_) => true,
            _ => false,
        },
        Type::Float32 | Type::Float64 => match instance {
            Json::Number(_) => true,
            _ => false,
        },
        Type::Int8 => is_integer_in(instance, -128, 127),
        Type::Uint8 => is_integer_in(instance, 0, 255),
        Type::Int16 => is_integer_in(instance, -32768, 32767),
        Type::Uint16 => is_integer_in(instance, 0, 65535),
        Type::Int32 => is_integer_in(instance, -2147483648, 2147483647),
        Type::Uint32 => is_integer_in(instance, 0, 4294967295),
        Type::String => match instance {
            Json::String(_) => true,
            _ => false,
        },
        Type::Timestamp => match instance {
            Json::String(s) => is_timestamp(s.as_str()),
            _ => false,
        },
    }
}

/// Reports each member of the object that the properties form does not
/// allow.
fn check_additional(
    cap: usize,
    required: &Vec<(String, Schema)>,
    optional: &Vec<(String, Schema)>,
    members: &Vec<(String, Json)>,
    parent_tag: Option<&String>,
    run: &mut Run,
) -> (status: Status)
    requires
        cap == 0 || old(run)@.errors.len() < cap,
    ensures
        status != Status::Aborted,
        moved(
            old(run)@.errors,
            final(run)@.errors,
            status,
            join(
                additional_parts(
                    schemas_view(required@),
                    schemas_view(optional@),
                    members_view(members@),
                    name_view(parent_tag),
                    old(run)@.instance_path,
                    old(run)@.schema_path,
                ),
            ),
            cap as nat,
        ),
        status == Status::Continue ==> final(run)@ == (RunView {
            errors: final(run)@.errors,
            ..old(run)@
        }),
{
    let ghost start = run@;
    let ghost parts = additional_parts(
        schemas_view(required@),
        schemas_view(optional@),
        members_view(members@),
        name_view(parent_tag),
        start.instance_path,
        start.schema_path,
    );
    proof {
        assert(parts.take(0) =~= Seq::empty());
        lemma_moved_nothing(start.errors, cap as nat);
    }
    let mut i: usize = 0;
    while i < members.len()
        invariant
            i <= members.len(),
            start == old(run)@,
            parts.len() == members.len(),
            parts == additional_parts(
                schemas_view(required@),
                schemas_view(optional@),
                members_view(members@),
                name_view(parent_tag),
                start.instance_path,
                start.schema_path,
            ),
            run@ == (RunView { errors: run@.errors, ..start }),
            moved(start.errors, run@.errors, Status::Continue, join(parts.take(i as int)), cap as nat),
        decreases members.len() - i,
    {
        let key = &members[i].0;
        let ghost before = run@;
        assert(members_view(members@)[i as int].0 == key@);
        let is_tag = match parent_tag {
            Some(tag) => *tag == *key,
            None => false,
        };
        proof {
            lemma_join_step(parts, i as int);
        }
        if !is_tag && !contains_key(required, key) && !contains_key(optional, key) {
            run.enter_instance(Token::Key(key.clone()));
            let status = run.report(cap);
            proof {
                lemma_moved_then(
                    start.errors,
                    before.errors,
                    run@.errors,
                    join(parts.take(i as int)),
                    parts[i as int],
                    status,
                    cap as nat,
                );
            }
            if status != Status::Continue {
                proof {
                    lemma_moved_stuck(
                        parts,
                        i + 1,
                        start.errors,
                        run@.errors,
                        status,
                        cap as nat,
                    );
                }
                return status;
            }
            run.leave_instance();
            assert(run@.instance_path =~= start.instance_path);
        } else {
            proof {
                lemma_moved_nothing(before.errors, cap as nat);
                lemma_moved_then(
                    start.errors,
                    before.errors,
                    run@.errors,
                    join(parts.take(i as int)),
                    parts[i as int],
                    Status::Continue,
                    cap as nat,
                );
            }
        }
        i += 1;
    }
    assert(parts.take(i as int) =~= parts);
    Status::Continue
}

/// Evaluates the schema on each element of an array.
fn eval_elements(
    max_depth: usize,
    cap: usize,
    defs: &Vec<(String, Schema)>,
    sub: &Schema,
    items: &Vec<Json>,
    run: &mut Run,
) -> (status: Status)
    requires
        defs_closed(schemas_view(defs@)),
        sub@.form.refs_resolve(schemas_view(defs@)),
        old(run).depth <= max_depth,
        cap == 0 || old(run)@.errors.len() < cap,
    ensures
        moved(
            old(run)@.errors,
            final(run)@.errors,
            status,
            join(
                elements_parts(
                    schemas_view(defs@),
                    max_depth as nat,
                    sub@,
                    items_view(items@),
                    old(run)@.instance_path,
                    old(run)@.schema_path,
                    old(run)@.depth,
                ),
            ),
            cap as nat,
        ),
        status == Status::Continue ==> final(run)@ == (RunView {
            errors: final(run)@.errors,
            ..old(run)@
        }),
    decreases max_depth - old(run).depth, sub@, 2int,
{
    let ghost start = run@;
    let ghost parts = elements_parts(
        schemas_view(defs@),
        max_depth as nat,
        sub@,
        items_view(items@),
        start.instance_path,
        start.schema_path,
        start.depth,
    );
    proof {
        assert(parts.take(0) =~= Seq::empty());
        lemma_moved_nothing(start.errors, cap as nat);
    }
    let mut i: usize = 0;
    while i < items.len()
        invariant
            i <= items.len(),
            start == old(run)@,
            defs_closed(schemas_view(defs@)),
            sub@.form.refs_resolve(schemas_view(defs@)),
            run.depth <= max_depth,
            parts.len() == items.len(),
            parts == elements_parts(
                schemas_view(defs@),
                max_depth as nat,
                sub@,
                items_view(items@),
                start.instance_path,
                start.schema_path,
                start.depth,
            ),
            run@ == (RunView { errors: run@.errors, ..start }),
            moved(start.errors, run@.errors, Status::Continue, join(parts.take(i as int)), cap as nat),
        decreases items.len() - i,
    {
        let ghost before = run@;
        assert(items_view(items@)[i as int] == items@[i as int]@);
        run.enter_instance(Token::Index(i));
        let status = eval(max_depth, cap, defs, sub, &items[i], None, run);
        proof {
            lemma_join_step(parts, i as int);
            lemma_moved_then(
                start.errors,
                before.errors,
                run@.errors,
                join(parts.take(i as int)),
                parts[i as int],
                status,
                cap as nat,
            );
        }
        if status != Status::Continue {
            proof {
                lemma_moved_stuck(parts, i + 1, start.errors, run@.errors, status, cap as nat);
            }
            return status;
        }
        run.leave_instance();
        assert(run@.instance_path =~= start.instance_path);
        i += 1;
    }
    assert(parts.take(i as int) =~= parts);
    Status::Continue
}

/// Evaluates the schema on the value of each member of an object.
fn eval_values(
    max_depth: usize,
    cap: usize,
    defs: &Vec<(String, Schema)>,
    sub: &Schema,
    members: &Vec<(String, Json)>,
    run: &mut Run,
) -> (status: Status)
    requires
        defs_closed(schemas_view(defs@)),
        sub@.form.refs_resolve(schemas_view(defs@)),
        old(run).depth <= max_depth,
        cap == 0 || old(run)@.errors.len() < cap,
    ensures
        moved(
            old(run)@.errors,
            final(run)@.errors,
            status,
            join(
                values_parts(
                    schemas_view(defs@),
                    max_depth as nat,
                    sub@,
                    members_view(members@),
                    old(run)@.instance_path,
                    old(run)@.schema_path,
                    old(run)@.depth,
                ),
            ),
            cap as nat,
        ),
        status == Status::Continue ==> final(run)@ == (RunView {
            errors: final(run)@.errors,
            ..old(run)@
        }),
    decreases max_depth - old(run).depth, sub@, 2int,
{
    let ghost start = run@;
    let ghost parts = values_parts(
        schemas_view(defs@),
        max_depth as nat,
        sub@,
        members_view(members@),
        start.instance_path,
        start.schema_path,
        start.depth,
    );
    proof {
        assert(parts.take(0) =~= Seq::empty());
        lemma_moved_nothing(start.errors, cap as nat);
    }
    let mut i: usize = 0;
    while i < members.len()
        invariant
            i <= members.len(),
            start == old(run)@,
            defs_closed(schemas_view(defs@)),
            sub@.form.refs_resolve(schemas_view(defs@)),
            run.depth <= max_depth,
            parts.len() == members.len(),
            parts == values_parts(
                schemas_view(defs@),
                max_depth as nat,
                sub@,
                members_view(members@),
                start.instance_path,
                start.schema_path,
                start.depth,
            ),
            run@ == (RunView { errors: run@.errors, ..start }),
            moved(start.errors, run@.errors, Status::Continue, join(parts.take(i as int)), cap as nat),
        decreases members.len() - i,
    {
        let ghost before = run@;
        assert(members_view(members@)[i as int] == (members@[i as int].0@, members@[i as int].1@));
        run.enter_instance(Token::Key(members[i].0.clone()));
        let status = eval(max_depth, cap, defs, sub, &members[i].1, None, run);
        proof {
            lemma_join_step(parts, i as int);
            lemma_moved_then(
                start.errors,
                before.errors,
                run@.errors,
                join(parts.take(i as int)),
                parts[i as int],
                status,
                cap as nat,
            );
        }
        if status != Status::Continue {
            proof {
                lemma_moved_stuck(parts, i + 1, start.errors, run@.errors, status, cap as nat);
            }
            return status;
        }
        run.leave_instance();
        assert(run@.instance_path =~= start.instance_path);
        i += 1;
    }
    assert(parts.take(i as int) =~= parts);
    Status::Continue
}

/// Evaluates each property of the map on the member of its name, and
/// reports a required property that the object does not have.
fn eval_properties(
    max_depth: usize,
    cap: usize,
    defs: &Vec<(String, Schema)>,
    properties: &Vec<(String, Schema)>,
    required: bool,
    members: &Vec<(String, Json)>,
    run: &mut Run,
) -> (status: Status)
    requires
        defs_closed(schemas_view(defs@)),
        forall|i: int|
            0 <= i < properties.len() ==> (#[trigger] schemas_view(
                properties@,
            )[i]).1.form.refs_resolve(schemas_view(defs@)),
        old(run).depth <= max_depth,
        cap == 0 || old(run)@.errors.len() < cap,
    ensures
        moved(
            old(run)@.errors,
            final(run)@.errors,
            status,
            join(
                properties_parts(
                    schemas_view(defs@),
                    max_depth as nat,
                    schemas_view(properties@),
                    required,
                    members_view(members@),
                    old(run)@.instance_path,
                    old(run)@.schema_path,
                    old(run)@.depth,
                ),
            ),
            cap as nat,
        ),
        status == Status::Continue ==> final(run)@ == (RunView {
            errors: final(run)@.errors,
            ..old(run)@
        }),
    decreases max_depth - old(run).depth, schemas_view(properties@), 2int,
{
    let ghost start = run@;
    let ghost mv = members_view(members@);
    let ghost parts = properties_parts(
        schemas_view(defs@),
        max_depth as nat,
        schemas_view(properties@),
        required,
        mv,
        start.instance_path,
        start.schema_path,
        start.depth,
    );
    proof {
        assert(parts.take(0) =~= Seq::empty());
        lemma_moved_nothing(start.errors, cap as nat);
    }
    let mut i: usize = 0;
    while i < properties.len()
        invariant
            i <= properties.len(),
            start == old(run)@,
            mv == members_view(members@),
            defs_closed(schemas_view(defs@)),
            forall|i: int|
                0 <= i < properties.len() ==> (#[trigger] schemas_view(
                    properties@,
                )[i]).1.form.refs_resolve(schemas_view(defs@)),
            run.depth <= max_depth,
            parts.len() == properties.len(),
            parts == properties_parts(
                schemas_view(defs@),
                max_depth as nat,
                schemas_view(properties@),
                required,
                mv,
                start.instance_path,
                start.schema_path,
                start.depth,
            ),
            run@ == (RunView { errors: run@.errors, ..start }),
            moved(start.errors, run@.errors, Status::Continue, join(parts.take(i as int)), cap as nat),
        decreases properties.len() - i,
    {
        let ghost before = run@;
        let name = &properties[i].0;
        let sub = &properties[i].1;
        assert(schemas_view(properties@)[i as int] == (name@, sub@));
        let at = find(members, name);
        proof {
            lemma_position(mv, name@);
            if at is Some {
                assert(is_first_key(mv, name@, at->0 as int)) by {
                    assert forall|j: int| 0 <= j < at->0 implies (#[trigger] mv[j]).0 != name@ by {
                        assert(members[j].0@ != name@);
                    }
                }
            } else {
                assert(!has_key(mv, name@)) by {
                    assert forall|j: int| 0 <= j < mv.len() implies (#[trigger] mv[j]).0
                        != name@ by {
                        assert(members[j].0@ != name@);
                    }
                }
            }
            lemma_join_step(parts, i as int);
        }
        run.enter_schema_key(name);
        let status = match at {
            Some(j) => {
                assert(mv[j as int].1 == members@[j as int].1@);
                run.enter_instance(Token::Key(name.clone()));
                let status = eval(max_depth, cap, defs, sub, &members[j].1, None, run);
                if status == Status::Continue {
                    run.leave_instance();
                    assert(run@.instance_path =~= start.instance_path);
                }
                status
            },
            None => {
                if required {
                    run.report(cap)
                } else {
                    proof {
                        lemma_moved_nothing(before.errors, cap as nat);
                    }
                    Status::Continue
                }
            },
        };
        proof {
            lemma_moved_then(
                start.errors,
                before.errors,
                run@.errors,
                join(parts.take(i as int)),
                parts[i as int],
                status,
                cap as nat,
            );
        }
        if status != Status::Continue {
            proof {
                lemma_moved_stuck(parts, i + 1, start.errors, run@.errors, status, cap as nat);
            }
            return status;
        }
        run.leave_schema();
        assert(run@.schema_path =~= start.schema_path);
        i += 1;
    }
    assert(parts.take(i as int) =~= parts);
    Status::Continue
}

/// Follows a reference, unless that would go too deep.
fn eval_ref(
    max_depth: usize,
    cap: usize,
    defs: &Vec<(String, Schema)>,
    schema: &Schema,
    instance: &Json,
    parent_tag: Option<&String>,
    run: &mut Run,
) -> (status: Status)
    requires
        defs_closed(schemas_view(defs@)),
        schema@.form.refs_resolve(schemas_view(defs@)),
        schema@.form is Ref,
        old(run).depth <= max_depth,
        cap == 0 || old(run)@.errors.len() < cap,
    ensures
        moved(
            old(run)@.errors,
            final(run)@.errors,
            status,
            crate::semantics::eval(
                schemas_view(defs@),
                max_depth as nat,
                schema@,
                instance@,
                name_view(parent_tag),
                old(run)@.instance_path,
                old(run)@.schema_path,
                old(run)@.depth,
            ),
            cap as nat,
        ),
        status == Status::Continue ==> final(run)@ == (RunView {
            errors: final(run)@.errors,
            ..old(run)@
        }),
    decreases max_depth - old(run).depth, schema@, 0int,
{
    let ghost start = run@;
    let ghost dv = schemas_view(defs@);
    match schema.form() {
        Form::Ref(name) => {
            if run.depth >= max_depth {
                assert(start.errors + too_deep().errors =~= start.errors);
                return Status::Aborted;
            }
            match find(defs, name) {
                Some(i) => {
                    proof {
                        lemma_position(dv, name@);
                        assert(is_first_key(dv, name@, i as int)) by {
                            assert forall|j: int| 0 <= j < i implies (#[trigger] dv[j]).0
                                != name@ by {
                                assert(defs[j].0@ != name@);
                            }
                        }
                        assert(dv[i as int].1 == defs@[i as int].1@);
                    }
                    run.depth = run.depth + 1;
                    let status = eval(max_depth, cap, defs, &defs[i].1, instance, None, run);
                    if status == Status::Continue {
                        run.depth = run.depth - 1;
                    }
                    status
                },
                None => {
                    proof {
                        let j = choose|j: int| 0 <= j < dv.len() && (#[trigger] dv[j]).0 == name@;
                        assert(defs[j].0@ != name@);
                    }
                    Status::Continue
                },
            }
        },
        _ => Status::Continue,
    }
}

/// Evaluates a schema of the properties form.
fn eval_properties_form(
    max_depth: usize,
    cap: usize,
    defs: &Vec<(String, Schema)>,
    schema: &Schema,
    instance: &Json,
    parent_tag: Option<&String>,
    run: &mut Run,
) -> (status: Status)
    requires
        defs_closed(schemas_view(defs@)),
        schema@.form.refs_resolve(schemas_view(defs@)),
        schema@.form is Properties,
        old(run).depth <= max_depth,
        cap == 0 || old(run)@.errors.len() < cap,
    ensures
        moved(
            old(run)@.errors,
            final(run)@.errors,
            status,
            crate::semantics::eval(
                schemas_view(defs@),
                max_depth as nat,
                schema@,
                instance@,
                name_view(parent_tag),
                old(run)@.instance_path,
                old(run)@.schema_path,
                old(run)@.depth,
            ),
            cap as nat,
        ),
        status == Status::Continue ==> final(run)@ == (RunView {
            errors: final(run)@.errors,
            ..old(run)@
        }),
    decreases max_depth - old(run).depth, schema@, 0int,
{
    let ghost start = run@;
    let ghost dv = schemas_view(defs@);
    match schema.form() {
        Form::Properties { required, optional, allow_additional, has_required } => {
            match instance {
                Json::Object(members) => {
                    let ghost mv = members_view(members@);
                    let ghost a = join(
                        properties_parts(
                            dv,
                            max_depth as nat,
                            schemas_view(required@),
                            true,
                            mv,
                            start.instance_path,
                            start.schema_path.push(keyword("properties")),
                            start.depth,
                        ),
                    );
                    let ghost b = join(
                        properties_parts(
                            dv,
                            max_depth as nat,
                            schemas_view(optional@),
                            false,
                            mv,
                            start.instance_path,
                            start.schema_path.push(keyword("optionalProperties")),
                            start.depth,
                        ),
                    );
                    let ghost c = if *allow_additional {
                        nothing()
                    } else {
                        join(
                            additional_parts(
                                schemas_view(required@),
                                schemas_view(optional@),
                                mv,
                                name_view(parent_tag),
                                start.instance_path,
                                start.schema_path,
                            ),
                        )
                    };
                    run.enter_schema("properties");
                    let status = eval_properties(
                        max_depth,
                        cap,
                        defs,
                        required,
                        true,
                        members,
                        run,
                    );
                    if status != Status::Continue {
                        proof {
                            lemma_moved_absorb(
                                start.errors,
                                run@.errors,
                                a,
                                then(b, c),
                                status,
                                cap as nat,
                            );
                        }
                        return status;
                    }
                    run.leave_schema();
                    assert(run@.schema_path =~= start.schema_path);
                    let ghost first = run@;
                    run.enter_schema("optionalProperties");
                    let status = eval_properties(
                        max_depth,
                        cap,
                        defs,
                        optional,
                        false,
                        members,
                        run,
                    );
                    if status != Status::Continue {
                        proof {
                            lemma_moved_absorb(first.errors, run@.errors, b, c, status, cap as nat);
                            lemma_moved_then(
                                start.errors,
                                first.errors,
                                run@.errors,
                                a,
                                then(b, c),
                                status,
                                cap as nat,
                            );
                        }
                        return status;
                    }
                    run.leave_schema();
                    assert(run@.schema_path =~= start.schema_path);
                    let ghost second = run@;
                    let status = if *allow_additional {
                        proof {
                            lemma_moved_nothing(second.errors, cap as nat);
                        }
                        Status::Continue
                    } else {
                        check_additional(cap, required, optional, members, parent_tag, run)
                    };
                    proof {
                        lemma_moved_then(first.errors, second.errors, run@.errors, b, c, status, cap as nat);
                        lemma_moved_then(
                            start.errors,
                            first.errors,
                            run@.errors,
                            a,
                            then(b, c),
                            status,
                            cap as nat,
                        );
                    }
                    status
                },
                _ => {
                    if *has_required {
                        run.fail(cap, "properties")
                    } else {
                        run.fail(cap, "optionalProperties")
                    }
                },
            }
        },
        _ => Status::Continue,
    }
}

/// Evaluates a schema of the discriminator form.
fn eval_discriminator(
    max_depth: usize,
    cap: usize,
    defs: &Vec<(String, Schema)>,
    schema: &Schema,
    instance: &Json,
    parent_tag: Option<&String>,
    run: &mut Run,
) -> (status: Status)
    requires
        defs_closed(schemas_view(defs@)),
        schema@.form.refs_resolve(schemas_view(defs@)),
        schema@.form is Discriminator,
        old(run).depth <= max_depth,
        cap == 0 || old(run)@.errors.len() < cap,
    ensures
        moved(
            old(run)@.errors,
            final(run)@.errors,
            status,
            crate::semantics::eval(
                schemas_view(defs@),
                max_depth as nat,
                schema@,
                instance@,
                name_view(parent_tag),
                old(run)@.instance_path,
                old(run)@.schema_path,
                old(run)@.depth,
            ),
            cap as nat,
        ),
        status == Status::Continue ==> final(run)@ == (RunView {
            errors: final(run)@.errors,
            ..old(run)@
        }),
    decreases max_depth - old(run).depth, schema@, 0int,
{
    let ghost start = run@;
    let ghost dv = schemas_view(defs@);
    match schema.form() {
        Form::Discriminator(tag, mapping) => {
            let members = match instance {
                Json::Object(members) => members,
                _ => {
                    return run.fail(cap, "discriminator");
                },
            };
            let ghost mv = members_view(members@);
            let ghost bv = schemas_view(mapping@);
            let at = find(members, tag);
            proof {
                lemma_position(mv, tag@);
                if at is Some {
                    assert(is_first_key(mv, tag@, at->0 as int)) by {
                        assert forall|j: int| 0 <= j < at->0 implies (#[trigger] mv[j]).0
                            != tag@ by {
                            assert(members[j].0@ != tag@);
                        }
                    }
                    assert(mv[at->0 as int].1 == members@[at->0 as int].1@);
                } else {
                    assert(!has_key(mv, tag@)) by {
                        assert forall|j: int| 0 <= j < mv.len() implies (#[trigger] mv[j]).0
                            != tag@ by {
                            assert(members[j].0@ != tag@);
                        }
                    }
                }
            }
            let value = match at {
                Some(j) => &members[j].1,
                None => {
                    return run.fail(cap, "discriminator");
                },
            };
            let value = match value {
                Json::String(value) => value,
                _ => {
                    run.enter_instance(Token::Key(tag.clone()));
                    let status = run.fail(cap, "discriminator");
                    if status == Status::Continue {
                        run.leave_instance();
                        assert(run@.instance_path =~= start.instance_path);
                    }
                    return status;
                },
            };
            let branch = find(mapping, value);
            proof {
                lemma_position(bv, value@);
                if branch is Some {
                    assert(is_first_key(bv, value@, branch->0 as int)) by {
                        assert forall|j: int| 0 <= j < branch->0 implies (#[trigger] bv[j]).0
                            != value@ by {
                            assert(mapping[j].0@ != value@);
                        }
                    }
                    assert(bv[branch->0 as int].1 == mapping@[branch->0 as int].1@);
                } else {
                    assert(!has_key(bv, value@)) by {
                        assert forall|j: int| 0 <= j < bv.len() implies (#[trigger] bv[j]).0
                            != value@ by {
                            assert(mapping[j].0@ != value@);
                        }
                    }
                }
            }
            run.enter_schema("discriminator");
            match branch {
                Some(i) => {
                    run.enter_schema("mapping");
                    run.enter_schema_key(value);
                    let status = eval(
                        max_depth,
                        cap,
                        defs,
                        &mapping[i].1,
                        instance,
                        Some(tag),
                        run,
                    );
                    if status == Status::Continue {
                        run.leave_schema();
                        run.leave_schema();
                        run.leave_schema();
                        assert(run@.schema_path =~= start.schema_path);
                    }
                    status
                },
                None => {
                    run.enter_instance(Token::Key(tag.clone()));
                    let status = run.fail(cap, "mapping");
                    if status == Status::Continue {
                        run.leave_instance();
                        run.leave_schema();
                        assert(run@.instance_path =~= start.instance_path);
                        assert(run@.schema_path =~= start.schema_path);
                    }
                    status
                },
            }
        },
        _ => Status::Continue,
    }
}

/// Evaluates the schema on the instance from where the run stands.
fn eval(
    max_depth: usize,
    cap: usize,
    defs: &Vec<(String, Schema)>,
    schema: &Schema,
    instance: &Json,
    parent_tag: Option<&String>,
    run: &mut Run,
) -> (status: Status)
    requires
        defs_closed(schemas_view(defs@)),
        schema@.form.refs_resolve(schemas_view(defs@)),
        old(run).depth <= max_depth,
        cap == 0 || old(run)@.errors.len() < cap,
    ensures
        moved(
            old(run)@.errors,
            final(run)@.errors,
            status,
            crate::semantics::eval(
                schemas_view(defs@),
                max_depth as nat,
                schema@,
                instance@,
                name_view(parent_tag),
                old(run)@.instance_path,
                old(run)@.schema_path,
                old(run)@.depth,
            ),
            cap as nat,
        ),
        status == Status::Continue ==> final(run)@ == (RunView {
            errors: final(run)@.errors,
            ..old(run)@
        }),
    decreases max_depth - old(run).depth, schema@, 1int,
{
    let ghost start = run@;
    match schema.form() {
        Form::Empty => {
            proof {
                lemma_moved_nothing(start.errors, cap as nat);
            }
            Status::Continue
        },
        Form::Ref(_) => eval_ref(max_depth, cap, defs, schema, instance, parent_tag, run),
        Form::Type(t) => {
            if type_matches(*t, instance) {
                proof {
                    lemma_moved_nothing(start.errors, cap as nat);
                }
                Status::Continue
            } else {
                run.fail(cap, "type")
            }
        },
        Form::Enum(values) => {
            let found = match instance {
                Json::String(s) => includes(values, s),
                _ => false,
            };
            if found {
                proof {
                    lemma_moved_nothing(start.errors, cap as nat);
                }
                Status::Continue
            } else {
                run.fail(cap, "enum")
            }
        },
        Form::Elements(sub) => {
            match instance {
                Json::Array(items) => {
                    run.enter_schema("elements");
                    let status = eval_elements(max_depth, cap, defs, sub, items, run);
                    if status == Status::Continue {
                        run.leave_schema();
                        assert(run@.schema_path =~= start.schema_path);
                    }
                    status
                },
                _ => run.fail(cap, "elements"),
            }
        },
        Form::Properties { .. } => eval_properties_form(
            max_depth,
            cap,
            defs,
            schema,
            instance,
            parent_tag,
            run,
        ),
        Form::Values(sub) => {
            match instance {
                Json::Object(members) => {
                    run.enter_schema("values");
                    let status = eval_values(max_depth, cap, defs, sub, members, run);
                    if status == Status::Continue {
                        run.leave_schema();
                        assert(run@.schema_path =~= start.schema_path);
                    }
                    status
                },
                _ => run.fail(cap, "values"),
            }
        },
        Form::Discriminator(..) => eval_discriminator(
            max_depth,
            cap,
            defs,
            schema,
            instance,
            parent_tag,
            run,
        ),
    }
}

/// A validator: it holds the limits under which it runs.
#[derive(Clone, Copy, Debug, PartialEq, Eq)]
pub struct Validator {
    pub config: Config,
}

/// The value of what a validation run returns.
pub open spec fn validated_view(r: Result<Vec<ValidationError>, JddfError>) -> Result<
    Seq<ValidationErrorView>,
    ErrorView,
> {
    match r {
        Ok(errors) => Ok(errors_view(errors@)),
        Err(e) => Err(e@),
    }
}

impl Validator {
    /// A validator with the limits of [`Config::new`].
    pub fn new() -> (validator: Validator)
        ensures
            validator.config.max_errors == 0,
            validator.config.max_depth == 32,
    {
        Validator { config: Config::new() }
    }

    /// A validator with these limits.
    pub fn new_with_config(config: Config) -> (validator: Validator)
        ensures
            validator.config == config,
    {
        Validator { config }
    }

    /// Validates the instance against the root schema and returns the errors
    /// in the order in which they are met: all of them, or, with a limit on
    /// the errors, the first ones up to the limit. The run fails, with
    /// [`JddfError::MaxDepthExceeded`], where references would have to be
    /// followed deeper than the limit before the errors reach theirs.
    ///
    /// The schema must be a root whose references all name definitions, as
    /// every schema from [`Schema::from_serde`] is.
    pub fn validate(&self, schema: &Schema, instance: &Json) -> (r: Result<
        Vec<ValidationError>,
        JddfError,
    >)
        requires
            schema@.closed(),
        ensures
            validated_view(r) == validation(
                schema@,
                instance@,
                self.config.max_depth as nat,
                self.config.max_errors as nat,
            ),
    {
        let mut run = Run {
            errors: Vec::new(),
            instance_path: Vec::new(),
            schema_path: Vec::new(),
            depth: 0,
        };
        assert(run@.errors =~= Seq::empty());
        assert(run@.instance_path =~= Seq::empty());
        assert(run@.schema_path =~= Seq::empty());
        let status = match schema.definitions() {
            Some(defs) => eval(
                self.config.max_depth,
                self.config.max_errors,
                defs,
                schema,
                instance,
                None,
                &mut run,
            ),
            None => Status::Continue,
        };
        proof {
            let found = crate::semantics::eval(
                schema@.defs->0,
                self.config.max_depth as nat,
                schema@,
                instance@,
                None,
                Seq::empty(),
                Seq::empty(),
                0,
            );
            assert(Seq::<ValidationErrorView>::empty() + found.errors =~= found.errors);
        }
        match status {
            Status::Aborted => Err(JddfError::MaxDepthExceeded),
            _ => Ok(run.errors),
        }
    }
}

/// Validating the same instance against the same schema under the same
/// limits gives the same result each time: the same errors in the same
/// order, or the same failure.
pub proof fn lemma_validate_repeatable(
    validator: Validator,
    schema: Schema,
    instance: Json,
    first: Result<Vec<ValidationError>, JddfError>,
    second: Result<Vec<ValidationError>, JddfError>,
)
    requires
        validated_view(first) == validation(
            schema@,
            instance@,
            validator.config.max_depth as nat,
            validator.config.max_errors as nat,
        ),
        validated_view(second) == validation(
            schema@,
            instance@,
            validator.config.max_depth as nat,
            validator.config.max_errors as nat,
        ),
    ensures
        validated_view(first) == validated_view(second),
{
}

} // verus!
