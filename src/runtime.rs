use vstd::prelude::*;
use crate::natives::{call_native, native_spec, values_of};
use crate::objects::{KodyObject, KodyValue, NativeFunction, RuntimeError};
use crate::syntax_tree::{KodyFunctionData, KodyNode, KodySyntaxTree};
use crate::text::owned;

verus! {

/// One scope frame: bindings from variable names to values, in the order in
/// which they were created.
pub type Frame = Vec<(String, KodyValue)>;

/// The index of the binding of `name` in a frame (the latest one, if several).
pub open spec fn entry_index(frame: Seq<(String, KodyValue)>, name: Seq<char>) -> Option<int>
    decreases frame.len(),
{
    if frame.len() == 0 {
        None
    } else if frame.last().0@ == name {
        Some(frame.len() - 1)
    } else {
        entry_index(frame.drop_last(), name)
    }
}

/// The innermost frame that binds `name`.
pub open spec fn frame_index(frames: Seq<Seq<(String, KodyValue)>>, name: Seq<char>) -> Option<int>
    decreases frames.len(),
{
    if frames.len() == 0 {
        None
    } else if entry_index(frames.last(), name) is Some {
        Some(frames.len() - 1)
    } else {
        frame_index(frames.drop_last(), name)
    }
}

/// The value that `name` has, searching frames from the innermost outwards.
pub open spec fn lookup_spec(frames: Seq<Seq<(String, KodyValue)>>, name: Seq<char>) -> Option<KodyValue> {
    match frame_index(frames, name) {
        Some(k) => Some(frames[k][entry_index(frames[k], name)->0].1),
        None => None,
    }
}

/// The frames after assigning `value` to `name`: the innermost existing
/// binding is overwritten; without one, the innermost frame gets a new binding.
pub open spec fn assign_spec(
    frames: Seq<Seq<(String, KodyValue)>>,
    name: String,
    value: KodyValue,
) -> Seq<Seq<(String, KodyValue)>> {
    match frame_index(frames, name@) {
        Some(k) => {
            let i = entry_index(frames[k], name@)->0;
            frames.update(k, frames[k].update(i, (frames[k][i].0, value)))
        },
        None => frames.update(frames.len() - 1, frames.last().push((name, value))),
    }
}

pub proof fn lemma_entry_index(frame: Seq<(String, KodyValue)>, name: Seq<char>)
    ensures
        entry_index(frame, name) matches Some(i) ==> 0 <= i < frame.len() && frame[i].0@ == name,
        entry_index(frame, name) matches Some(i) ==> forall|j: int| i < j < frame.len() ==> #[trigger] frame[j].0@ != name,
        entry_index(frame, name) is None ==> forall|j: int| 0 <= j < frame.len() ==> #[trigger] frame[j].0@ != name,
    decreases frame.len(),
{
    if frame.len() > 0 {
        let d = frame.drop_last();
        lemma_entry_index(d, name);
        assert(frame.last() == frame[frame.len() - 1]);
        if frame.last().0@ != name {
            if let Some(i) = entry_index(d, name) {
                assert forall|j: int| i < j < frame.len() implies #[trigger] frame[j].0@ != name by {
                    if j < frame.len() - 1 {
                        assert(d[j] == frame[j]);
                    }
                }
            } else {
                assert forall|j: int| 0 <= j < frame.len() implies #[trigger] frame[j].0@ != name by {
                    if j < frame.len() - 1 {
                        assert(d[j] == frame[j]);
                    }
                }
            }
        }
    }
}

pub proof fn lemma_frame_index(frames: Seq<Seq<(String, KodyValue)>>, name: Seq<char>)
    ensures
        frame_index(frames, name) matches Some(k) ==> 0 <= k < frames.len() && entry_index(frames[k], name) is Some,
        frame_index(frames, name) matches Some(k) ==> forall|j: int| k < j < frames.len() ==> entry_index(#[trigger] frames[j], name) is None,
        frame_index(frames, name) is None ==> forall|j: int| 0 <= j < frames.len() ==> entry_index(#[trigger] frames[j], name) is None,
    decreases frames.len(),
{
    if frames.len() > 0 {
        let d = frames.drop_last();
        lemma_frame_index(d, name);
        assert(frames.last() == frames[frames.len() - 1]);
        if entry_index(frames.last(), name) is None {
            if let Some(k) = frame_index(d, name) {
                assert(d[k] == frames[k]);
                assert forall|j: int| k < j < frames.len() implies entry_index(#[trigger] frames[j], name) is None by {
                    if j < frames.len() - 1 {
                        assert(d[j] == frames[j]);
                    }
                }
            } else {
                assert forall|j: int| 0 <= j < frames.len() implies entry_index(#[trigger] frames[j], name) is None by {
                    if j < frames.len() - 1 {
                        assert(d[j] == frames[j]);
                    }
                }
            }
        }
    }
}

/// Overwriting the value of the latest binding keeps it the latest binding.
proof fn lemma_entry_update(frame: Seq<(String, KodyValue)>, name: Seq<char>, i: int, entry: (String, KodyValue))
    requires
        entry_index(frame, name) == Some(i),
        entry.0@ == name,
    ensures
        entry_index(frame.update(i, entry), name) == Some(i),
{
    lemma_entry_index(frame, name);
    let u = frame.update(i, entry);
    if i < frame.len() - 1 {
        assert(u.last() == frame.last());
        lemma_entry_update_prefix(frame, name, i, entry);
    }
}

proof fn lemma_entry_update_prefix(frame: Seq<(String, KodyValue)>, name: Seq<char>, i: int, entry: (String, KodyValue))
    requires
        0 <= i < frame.len(),
        frame[i].0@ == name,
        entry.0@ == name,
        forall|j: int| i < j < frame.len() ==> #[trigger] frame[j].0@ != name,
    ensures
        entry_index(frame.update(i, entry), name) == Some(i),
    decreases frame.len(),
{
    let u = frame.update(i, entry);
    if i < frame.len() - 1 {
        assert(u.last() == frame.last());
        assert(frame.last() == frame[frame.len() - 1]);
        assert(u.drop_last() =~= frame.drop_last().update(i, entry));
        assert forall|j: int| i < j < frame.drop_last().len() implies #[trigger] frame.drop_last()[j].0@ != name by {
            assert(frame.drop_last()[j] == frame[j]);
        }
        lemma_entry_update_prefix(frame.drop_last(), name, i, entry);
    }
}

/// Assigning to a variable that an outer frame already binds changes that
/// binding: once the innermost frame is closed, the variable has the new value.
pub proof fn law_assign_existing_outer(
    frames: Seq<Seq<(String, KodyValue)>>,
    name: String,
    value: KodyValue,
)
    requires
        frames.len() >= 2,
        frame_index(frames, name@) matches Some(k) && k < frames.len() - 1,
    ensures
        assign_spec(frames, name, value).len() == frames.len(),
        lookup_spec(assign_spec(frames, name, value).drop_last(), name@) == Some(value),
{
    lemma_frame_index(frames, name@);
    let k = frame_index(frames, name@)->0;
    let i = entry_index(frames[k], name@)->0;
    lemma_entry_index(frames[k], name@);
    let entry = (frames[k][i].0, value);
    let after = assign_spec(frames, name, value);
    let closed = after.drop_last();
    lemma_entry_update(frames[k], name@, i, entry);
    // the closed frames bind `name` last at k
    assert forall|j: int| k < j < closed.len() implies entry_index(#[trigger] closed[j], name@) is None by {
        assert(closed[j] == frames[j]);
    }
    lemma_frame_index_prefix(closed, name@, k);
}

proof fn lemma_frame_index_prefix(frames: Seq<Seq<(String, KodyValue)>>, name: Seq<char>, k: int)
    requires
        0 <= k < frames.len(),
        entry_index(frames[k], name) is Some,
        forall|j: int| k < j < frames.len() ==> entry_index(#[trigger] frames[j], name) is None,
    ensures
        frame_index(frames, name) == Some(k),
    decreases frames.len(),
{
    if k < frames.len() - 1 {
        assert(frames.last() == frames[frames.len() - 1]);
        assert forall|j: int| k < j < frames.drop_last().len() implies entry_index(#[trigger] frames.drop_last()[j], name) is None by {
            assert(frames.drop_last()[j] == frames[j]);
        }
        assert(frames.drop_last()[k] == frames[k]);
        lemma_frame_index_prefix(frames.drop_last(), name, k);
    }
}

/// A variable that no frame binds, when assigned, exists only in the
/// innermost frame: once that frame is closed it is unbound again.
pub proof fn law_assign_new_is_local(
    frames: Seq<Seq<(String, KodyValue)>>,
    name: String,
    value: KodyValue,
)
    requires
        frames.len() >= 1,
        lookup_spec(frames, name@) is None,
    ensures
        lookup_spec(assign_spec(frames, name, value), name@) == Some(value),
        lookup_spec(assign_spec(frames, name, value).drop_last(), name@) is None,
{
    lemma_frame_index(frames, name@);
    let after = assign_spec(frames, name, value);
    let last = frames.len() - 1;
    assert(after[last] == frames[last].push((name, value)));
    assert(after[last].last() == (name, value));
    assert(entry_index(after[last], name@) == Some(after[last].len() - 1));
    assert(after.last() == after[last]);
    assert(after.drop_last() =~= frames.drop_last());
    assert forall|j: int| 0 <= j < frames.drop_last().len() implies entry_index(#[trigger] frames.drop_last()[j], name@) is None by {
        assert(frames.drop_last()[j] == frames[j]);
    }
    lemma_frame_index_none(frames.drop_last(), name@);
}

proof fn lemma_frame_index_none(frames: Seq<Seq<(String, KodyValue)>>, name: Seq<char>)
    requires
        forall|j: int| 0 <= j < frames.len() ==> entry_index(#[trigger] frames[j], name) is None,
    ensures
        frame_index(frames, name) is None,
    decreases frames.len(),
{
    if frames.len() > 0 {
        assert(frames.last() == frames[frames.len() - 1]);
        assert forall|j: int| 0 <= j < frames.drop_last().len() implies entry_index(#[trigger] frames.drop_last()[j], name) is None by {
            assert(frames.drop_last()[j] == frames[j]);
        }
        lemma_frame_index_none(frames.drop_last(), name);
    }
}


/// The native function that a reserved name stands for.
pub open spec fn native_named(name: Seq<char>) -> Option<NativeFunction> {
    if name == "print"@ {
        Some(NativeFunction::Print)
    } else if name == "__equal"@ {
        Some(NativeFunction::Equal)
    } else if name == "__not_equal"@ {
        Some(NativeFunction::NotEqual)
    } else if name == "__less_than"@ {
        Some(NativeFunction::LessThan)
    } else if name == "__less_than_or_equal"@ {
        Some(NativeFunction::LessThanOrEqual)
    } else if name == "__greater_than"@ {
        Some(NativeFunction::GreaterThan)
    } else if name == "__greater_than_or_equal"@ {
        Some(NativeFunction::GreaterThanOrEqual)
    } else if name == "__add"@ {
        Some(NativeFunction::Add)
    } else if name == "__subtract"@ {
        Some(NativeFunction::Subtract)
    } else if name == "__multiply"@ {
        Some(NativeFunction::Multiply)
    } else if name == "__divide"@ {
        Some(NativeFunction::Divide)
    } else if name == "__negate"@ {
        Some(NativeFunction::Negate)
    } else if name == "__not"@ {
        Some(NativeFunction::Not)
    } else if name == "__and"@ {
        Some(NativeFunction::And)
    } else if name == "__or"@ {
        Some(NativeFunction::Or)
    } else {
        None
    }
}

/// The native function named `name`, if any.
pub fn native_by_name(name: &String) -> (r: Option<NativeFunction>)
    ensures
        r == native_named(name@),
{
    if *name == owned("print") {
        Some(NativeFunction::Print)
    } else if *name == owned("__equal") {
        Some(NativeFunction::Equal)
    } else if *name == owned("__not_equal") {
        Some(NativeFunction::NotEqual)
    } else if *name == owned("__less_than") {
        Some(NativeFunction::LessThan)
    } else if *name == owned("__less_than_or_equal") {
        Some(NativeFunction::LessThanOrEqual)
    } else if *name == owned("__greater_than") {
        Some(NativeFunction::GreaterThan)
    } else if *name == owned("__greater_than_or_equal") {
        Some(NativeFunction::GreaterThanOrEqual)
    } else if *name == owned("__add") {
        Some(NativeFunction::Add)
    } else if *name == owned("__subtract") {
        Some(NativeFunction::Subtract)
    } else if *name == owned("__multiply") {
        Some(NativeFunction::Multiply)
    } else if *name == owned("__divide") {
        Some(NativeFunction::Divide)
    } else if *name == owned("__negate") {
        Some(NativeFunction::Negate)
    } else if *name == owned("__not") {
        Some(NativeFunction::Not)
    } else if *name == owned("__and") {
        Some(NativeFunction::And)
    } else if *name == owned("__or") {
        Some(NativeFunction::Or)
    } else {
        None
    }
}

/// What reading the variable `name` gives: its innermost binding, else the
/// native function of that name, else an error.
pub open spec fn get_spec(frames: Seq<Seq<(String, KodyValue)>>, name: String) -> Result<KodyValue, RuntimeError> {
    match lookup_spec(frames, name@) {
        Some(v) => Ok(v),
        None => match native_named(name@) {
            Some(f) => Ok(KodyValue::NativeFunction(f)),
            None => Err(RuntimeError::UnknownVariable(name)),
        },
    }
}

/// The stack of scope frames of one evaluation, innermost last, and the
/// value that a `return` has set.
pub struct VariableStack {
    pub closures: Vec<Frame>,
    pub return_value: Option<KodyValue>,
}

impl VariableStack {
    pub open spec fn frames(&self) -> Seq<Seq<(String, KodyValue)>> {
        self.closures@.map_values(|f: Frame| f@)
    }

    /// A stack whose only frame holds the global variables.
    pub fn new(global_variables: Frame) -> (r: VariableStack)
        ensures
            r.frames() == seq![global_variables@],
            r.return_value is None,
    {
        let ghost g = global_variables@;
        let mut closures: Vec<Frame> = Vec::new();
        closures.push(global_variables);
        let r = VariableStack { closures, return_value: None };
        assert(r.frames() =~= seq![g]);
        r
    }

    /// Opens a new, empty innermost frame.
    pub fn open_closure(&mut self)
        ensures
            final(self).frames() == old(self).frames().push(Seq::empty()),
            final(self).return_value == old(self).return_value,
    {
        self.closures.push(Vec::new());
        assert(final(self).frames() =~= old(self).frames().push(Seq::empty()));
    }

    /// Closes the innermost frame, dropping its variables.
    pub fn close_closure(&mut self)
        requires
            old(self).frames().len() > 0,
        ensures
            final(self).frames() == old(self).frames().drop_last(),
            final(self).return_value == old(self).return_value,
    {
        self.closures.pop();
        assert(final(self).frames() =~= old(self).frames().drop_last());
    }

    /// Assigns `new_value` to `name`: the innermost existing binding is
    /// overwritten, else the innermost frame gets a new one.
    pub fn set(&mut self, name: &String, new_value: KodyValue)
        requires
            old(self).frames().len() > 0,
        ensures
            final(self).frames() == assign_spec(old(self).frames(), *name, new_value),
            final(self).return_value == old(self).return_value,
    {
        let ghost frames = self.frames();
        let mut k = self.closures.len();
        while k > 0
            invariant
                k <= self.closures@.len(),
                self.frames() == frames,
                frames == old(self).frames(),
                self.return_value == old(self).return_value,
                frames.len() > 0,
                forall|j: int| k <= j < frames.len() ==> entry_index(#[trigger] frames[j], name@) is None,
            decreases k,
        {
            k = k - 1;
            let mut i = self.closures[k].len();
            while i > 0
                invariant
                    k < self.closures@.len(),
                    self.frames() == frames,
                    frames == old(self).frames(),
                    self.return_value == old(self).return_value,
                frames == old(self).frames(),
                self.return_value == old(self).return_value,
                    i <= frames[k as int].len(),
                    forall|j: int| i <= j < frames[k as int].len() ==> #[trigger] frames[k as int][j].0@ != name@,
                    forall|j: int| k < j < frames.len() ==> entry_index(#[trigger] frames[j], name@) is None,
                decreases i,
            {
                i = i - 1;
                if self.closures[k][i].0 == *name {
                    proof {
                        lemma_entry_latest(frames[k as int], name@, i as int);
                        lemma_frame_index_prefix(frames, name@, k as int);
                    }
                    let key = self.closures[k][i].0.clone();
                    self.closures[k].set(i, (key, new_value));
                    assert(self.frames() =~= assign_spec(frames, *name, new_value));
                    return;
                }
            }
            proof {
                lemma_entry_none(frames[k as int], name@);
            }
        }
        proof {
            lemma_frame_index_none(frames, name@);
        }
        let last = self.closures.len() - 1;
        self.closures[last].push((name.clone(), new_value));
        assert(self.frames() =~= assign_spec(frames, *name, new_value));
    }

    /// The value of `name`, as `get_spec` gives it.
    pub fn get(&self, name: &String) -> (r: Result<KodyValue, RuntimeError>)
        ensures
            r == get_spec(self.frames(), *name),
    {
        let ghost frames = self.frames();
        let mut k = self.closures.len();
        while k > 0
            invariant
                k <= self.closures@.len(),
                self.frames() == frames,
                forall|j: int| k <= j < frames.len() ==> entry_index(#[trigger] frames[j], name@) is None,
            decreases k,
        {
            k = k - 1;
            let mut i = self.closures[k].len();
            while i > 0
                invariant
                    k < self.closures@.len(),
                    self.frames() == frames,
                    i <= frames[k as int].len(),
                    forall|j: int| i <= j < frames[k as int].len() ==> #[trigger] frames[k as int][j].0@ != name@,
                    forall|j: int| k < j < frames.len() ==> entry_index(#[trigger] frames[j], name@) is None,
                decreases i,
            {
                i = i - 1;
                if self.closures[k][i].0 == *name {
                    proof {
                        lemma_entry_latest(frames[k as int], name@, i as int);
                        lemma_frame_index_prefix(frames, name@, k as int);
                    }
                    return Ok(self.closures[k][i].1.duplicate());
                }
            }
            proof {
                lemma_entry_none(frames[k as int], name@);
            }
        }
        proof {
            lemma_frame_index_none(frames, name@);
        }
        match native_by_name(name) {
            Some(f) => Ok(KodyValue::NativeFunction(f)),
            None => Err(RuntimeError::UnknownVariable(name.clone())),
        }
    }
}

proof fn lemma_entry_latest(frame: Seq<(String, KodyValue)>, name: Seq<char>, i: int)
    requires
        0 <= i < frame.len(),
        frame[i].0@ == name,
        forall|j: int| i < j < frame.len() ==> #[trigger] frame[j].0@ != name,
    ensures
        entry_index(frame, name) == Some(i),
    decreases frame.len(),
{
    assert(frame.last() == frame[frame.len() - 1]);
    if i < frame.len() - 1 {
        assert forall|j: int| i < j < frame.drop_last().len() implies #[trigger] frame.drop_last()[j].0@ != name by {
            assert(frame.drop_last()[j] == frame[j]);
        }
        assert(frame.drop_last()[i] == frame[i]);
        lemma_entry_latest(frame.drop_last(), name, i);
    }
}

proof fn lemma_entry_none(frame: Seq<(String, KodyValue)>, name: Seq<char>)
    requires
        forall|j: int| 0 <= j < frame.len() ==> #[trigger] frame[j].0@ != name,
    ensures
        entry_index(frame, name) is None,
    decreases frame.len(),
{
    if frame.len() > 0 {
        assert(frame.last() == frame[frame.len() - 1]);
        assert forall|j: int| 0 <= j < frame.drop_last().len() implies #[trigger] frame.drop_last()[j].0@ != name by {
            assert(frame.drop_last()[j] == frame[j]);
        }
        lemma_entry_none(frame.drop_last(), name);
    }
}


/// The state that evaluation reads and changes: the scope frames, the value a
/// `return` has set, the lines printed so far, and the remaining loop budget.
pub type EvalState = (Seq<Seq<(String, KodyValue)>>, Option<KodyValue>, Seq<Seq<KodyValue>>, u64);

/// The state with the innermost frame closed.
pub open spec fn closed(st: EvalState) -> EvalState {
    (st.0.drop_last(), st.1, st.2, st.3)
}

/// The frame that binds each parameter to its argument.
pub open spec fn parameter_frame(names: Seq<String>, values: Seq<KodyValue>) -> Seq<(String, KodyValue)> {
    Seq::new(names.len(), |i: int| (names[i], values[i]))
}

/// What evaluating `node` in state `st` gives, and the state after it, with
/// `depth` levels of nesting left.
pub open spec fn eval(node: KodyNode, st: EvalState, fns: Seq<KodyFunctionData>, depth: nat) -> (Result<KodyValue, RuntimeError>, EvalState)
    decreases depth, 0nat, 0nat,
{
    if depth == 0 {
        (Err(RuntimeError::ResourceExhausted), st)
    } else if st.1 is Some {
        (Ok(KodyValue::Empty), st)
    } else {
        match node {
            KodyNode::CodeBlock { statements } => eval_block(
                statements@,
                0,
                (st.0.push(Seq::empty()), st.1, st.2, st.3),
                fns,
                (depth - 1) as nat,
            ),
            KodyNode::GetConstant { value } => (Ok(*value.value), st),
            KodyNode::GetVariable { name } => (get_spec(st.0, name), st),
            KodyNode::SetVariable { name, value } => {
                let (r, s1) = eval(*value, st, fns, (depth - 1) as nat);
                match r {
                    Ok(v) => (Ok(KodyValue::Empty), (assign_spec(s1.0, name, v), s1.1, s1.2, s1.3)),
                    Err(e) => (Err(e), s1),
                }
            },
            KodyNode::IfStatement { condition, action, else_action } => eval_if(
                *condition,
                *action,
                else_action,
                st,
                fns,
                (depth - 1) as nat,
            ),
            KodyNode::WhileStatement { condition, action } => eval_while(
                *condition,
                *action,
                st,
                fns,
                (depth - 1) as nat,
            ),
            KodyNode::ReturnFromFunction { return_value } => {
                let (r, s1) = eval(*return_value, st, fns, (depth - 1) as nat);
                match r {
                    Ok(v) => (Ok(KodyValue::Empty), (s1.0, Some(v), s1.2, s1.3)),
                    Err(e) => (Err(e), s1),
                }
            },
            KodyNode::CallFunction { function, arguments } => eval_call(
                *function,
                arguments@,
                st,
                fns,
                (depth - 1) as nat,
            ),
            KodyNode::GetMember { base_object, member_name } => {
                let (r, s1) = eval(*base_object, st, fns, (depth - 1) as nat);
                match r {
                    Ok(_) => (Err(RuntimeError::UnknownMember(member_name)), s1),
                    Err(e) => (Err(e), s1),
                }
            },
        }
    }
}

/// A condition's value as a boolean; any other value is an error.
pub open spec fn condition_result(r: Result<KodyValue, RuntimeError>) -> Result<bool, RuntimeError> {
    match r {
        Ok(KodyValue::Bool(b)) => Ok(b),
        Ok(_) => Err(RuntimeError::NonBooleanCondition),
        Err(e) => Err(e),
    }
}

/// `if`: the action when the condition is true, else the `else` action.
pub open spec fn eval_if(condition: KodyNode, action: KodyNode, else_action: Option<Box<KodyNode>>, st: EvalState, fns: Seq<KodyFunctionData>, depth: nat) -> (Result<KodyValue, RuntimeError>, EvalState)
    decreases depth, 1nat, 0nat,
{
    let (c, s1) = eval(condition, st, fns, depth);
    match condition_result(c) {
        Ok(true) => {
            let (a, s2) = eval(action, s1, fns, depth);
            match a {
                Ok(_) => (Ok(KodyValue::Empty), s2),
                Err(e) => (Err(e), s2),
            }
        },
        Ok(false) => match else_action {
            Some(other) => {
                let (a, s2) = eval(*other, s1, fns, depth);
                match a {
                    Ok(_) => (Ok(KodyValue::Empty), s2),
                    Err(e) => (Err(e), s2),
                }
            },
            None => (Ok(KodyValue::Empty), s1),
        },
        Err(e) => (Err(e), s1),
    }
}

/// Runs `stmts[k..]` in order, stopping at an error or once a `return` has
/// set a value; the innermost frame is closed at the end.
pub open spec fn eval_block(stmts: Seq<KodyNode>, k: int, st: EvalState, fns: Seq<KodyFunctionData>, depth: nat) -> (Result<KodyValue, RuntimeError>, EvalState)
    decreases depth, 1nat, stmts.len() - k,
{
    if k < 0 || k >= stmts.len() || st.1 is Some {
        (Ok(KodyValue::Empty), closed(st))
    } else {
        let (r, s1) = eval(stmts[k], st, fns, depth);
        match r {
            Err(e) => (Err(e), closed(s1)),
            Ok(_) => eval_block(stmts, k + 1, s1, fns, depth),
        }
    }
}

/// A loop: each round takes one step of the budget, then evaluates the
/// condition and, while it is true, the action.
pub open spec fn eval_while(condition: KodyNode, action: KodyNode, st: EvalState, fns: Seq<KodyFunctionData>, depth: nat) -> (Result<KodyValue, RuntimeError>, EvalState)
    decreases depth, 1nat, st.3,
{
    if st.3 == 0 {
        (Err(RuntimeError::ResourceExhausted), st)
    } else {
        let s0 = (st.0, st.1, st.2, (st.3 - 1) as u64);
        let (c, s1) = eval(condition, s0, fns, depth);
        match condition_result(c) {
            Ok(b) => if !b || s1.1 is Some {
                (Ok(KodyValue::Empty), s1)
            } else {
                let (a, s2) = eval(action, s1, fns, depth);
                match a {
                    Err(e) => (Err(e), s2),
                    Ok(_) => if s2.1 is Some || s2.3 >= st.3 {
                        (Ok(KodyValue::Empty), s2)
                    } else {
                        eval_while(condition, action, s2, fns, depth)
                    },
                }
            },
            Err(e) => (Err(e), s1),
        }
    }
}

/// Evaluates `args[k..]` left to right after the values `acc`.
pub open spec fn eval_args(args: Seq<KodyNode>, k: int, acc: Seq<KodyValue>, st: EvalState, fns: Seq<KodyFunctionData>, depth: nat) -> (Result<Seq<KodyValue>, RuntimeError>, EvalState)
    decreases depth, 1nat, args.len() - k,
{
    if k < 0 || k >= args.len() {
        (Ok(acc), st)
    } else {
        let (r, s1) = eval(args[k], st, fns, depth);
        match r {
            Ok(v) => eval_args(args, k + 1, acc.push(v), s1, fns, depth),
            Err(e) => (Err(e), s1),
        }
    }
}

/// A call: the callee, then the arguments, then the dispatch. A user
/// function runs on the global frame and a frame of its parameters; the
/// caller's frames are as before the call.
pub open spec fn eval_call(function: KodyNode, args: Seq<KodyNode>, st: EvalState, fns: Seq<KodyFunctionData>, depth: nat) -> (Result<KodyValue, RuntimeError>, EvalState)
    decreases depth, 2nat, 0nat,
{
    let (f, s1) = eval(function, st, fns, depth);
    match f {
        Err(e) => (Err(e), s1),
        Ok(callee) => {
            let (a, s2) = eval_args(args, 0, Seq::empty(), s1, fns, depth);
            match a {
                Err(e) => (Err(e), s2),
                Ok(values) => match callee {
                    KodyValue::NativeFunction(NativeFunction::Print) => (
                        Ok(KodyValue::Empty),
                        (s2.0, s2.1, s2.2.push(values), s2.3),
                    ),
                    KodyValue::NativeFunction(op) => (native_spec(op, values), s2),
                    KodyValue::Function(i) => if i >= fns.len() {
                        (Err(RuntimeError::UnknownFunction), s2)
                    } else if fns[i as int].arguments@.len() != values.len() {
                        (Err(RuntimeError::ArityMismatch), s2)
                    } else {
                        let inner = (
                            seq![s2.0[0], parameter_frame(fns[i as int].arguments@, values)],
                            None,
                            s2.2,
                            s2.3,
                        );
                        let (r, s3) = eval(fns[i as int].body, inner, fns, depth);
                        let after = (s2.0, s2.1, s3.2, s3.3);
                        match r {
                            Err(e) => (Err(e), after),
                            Ok(_) => (
                                Ok(
                                    match s3.1 {
                                        Some(v) => v,
                                        None => KodyValue::Empty,
                                    },
                                ),
                                after,
                            ),
                        }
                    },
                    _ => (Err(RuntimeError::NotCallable), s2),
                },
            }
        },
    }
}

/// How deep evaluation may nest (blocks, calls and sub-expressions) before
/// it stops with `ResourceExhausted`.
pub const MAX_DEPTH: usize = 2000;

/// `longer` begins with all of `shorter`.
pub open spec fn extends(longer: Seq<Vec<KodyValue>>, shorter: Seq<Vec<KodyValue>>) -> bool {
    &&& longer.len() >= shorter.len()
    &&& forall|i: int| 0 <= i < shorter.len() ==> #[trigger] longer[i] == shorter[i]
}

/// The evaluation state that a stack, the printed lines and the loop budget hold.
pub open spec fn state_of(stack: VariableStack, output: Seq<Vec<KodyValue>>, steps: u64) -> EvalState {
    (stack.frames(), stack.return_value, output.map_values(|line: Vec<KodyValue>| line@), steps)
}

/// What evaluation leaves unchanged or only extends: the number of frames,
/// the output printed so far, and the remaining loop budget.
pub open spec fn evaluation_frame(
    old_stack: VariableStack,
    new_stack: VariableStack,
    old_output: Seq<Vec<KodyValue>>,
    new_output: Seq<Vec<KodyValue>>,
    old_steps: u64,
    new_steps: u64,
) -> bool {
    &&& new_stack.frames().len() == old_stack.frames().len()
    &&& new_stack.frames().len() > 0 ==> new_stack.frames()[0].len() >= old_stack.frames()[0].len()
    &&& extends(new_output, old_output)
    &&& new_steps <= old_steps
}

/// A copy of a frame.
fn duplicate_frame(frame: &Frame) -> (r: Frame)
    ensures
        r@ == frame@,
{
    let mut out: Frame = Vec::new();
    let mut i: usize = 0;
    while i < frame.len()
        invariant
            i <= frame@.len(),
            out@ == frame@.subrange(0, i as int),
        decreases frame@.len() - i,
    {
        let (name, value) = &frame[i];
        out.push((name.clone(), value.duplicate()));
        i = i + 1;
        assert(out@ =~= frame@.subrange(0, i as int));
    }
    assert(out@ =~= frame@);
    out
}

/// Evaluates one node, as `eval` says. `steps` bounds the number of loop
/// iterations and `depth` the nesting of evaluation; running out of either is
/// `ResourceExhausted`. Once a `return` has set the stack's return value,
/// nodes do nothing and give the empty value.
pub fn execute_node(
    node: &KodyNode,
    stack: &mut VariableStack,
    functions: &Vec<KodyFunctionData>,
    output: &mut Vec<Vec<KodyValue>>,
    steps: &mut u64,
    depth: usize,
) -> (r: Result<KodyValue, RuntimeError>)
    requires
        old(stack).frames().len() > 0,
    ensures
        (r, state_of(*final(stack), final(output)@, *final(steps))) == eval(
            *node,
            state_of(*old(stack), old(output)@, *old(steps)),
            functions@,
            depth as nat,
        ),
        evaluation_frame(*old(stack), *final(stack), old(output)@, final(output)@, *old(steps), *final(steps)),
    decreases depth, 0nat,
{
    if depth == 0 {
        return Err(RuntimeError::ResourceExhausted);
    }
    if stack.return_value.is_some() {
        return Ok(KodyValue::Empty);
    }
    match node {
        KodyNode::CodeBlock { statements } => execute_codeblock(statements, stack, functions, output, steps, depth - 1),
        KodyNode::GetConstant { value } => Ok(value.value.duplicate()),
        KodyNode::GetVariable { name } => stack.get(name),
        KodyNode::SetVariable { name, value } => {
            let v = execute_node(value, stack, functions, output, steps, depth - 1)?;
            proof {
                lemma_assign_shape(stack.frames(), *name, v);
            }
            stack.set(name, v);
            Ok(KodyValue::Empty)
        },
        KodyNode::IfStatement { condition, action, else_action } => execute_if_statement(
            condition,
            action,
            else_action,
            stack,
            functions,
            output,
            steps,
            depth - 1,
        ),
        KodyNode::WhileStatement { condition, action } => execute_while_statement(
            condition,
            action,
            stack,
            functions,
            output,
            steps,
            depth - 1,
        ),
        KodyNode::ReturnFromFunction { return_value } => {
            let v = execute_node(return_value, stack, functions, output, steps, depth - 1)?;
            stack.return_value = Some(v);
            Ok(KodyValue::Empty)
        },
        KodyNode::CallFunction { function, arguments } => execute_function_call(
            function,
            arguments,
            stack,
            functions,
            output,
            steps,
            depth - 1,
        ),
        KodyNode::GetMember { base_object, member_name } => {
            execute_node(base_object, stack, functions, output, steps, depth - 1)?;
            Err(RuntimeError::UnknownMember(member_name.clone()))
        },
    }
}

/// Runs the statements of a block in a new frame, stopping after a `return`;
/// the frame is closed on every exit.
pub fn execute_codeblock(
    statements: &Vec<KodyNode>,
    stack: &mut VariableStack,
    functions: &Vec<KodyFunctionData>,
    output: &mut Vec<Vec<KodyValue>>,
    steps: &mut u64,
    depth: usize,
) -> (r: Result<KodyValue, RuntimeError>)
    requires
        old(stack).frames().len() > 0,
    ensures
        (r, state_of(*final(stack), final(output)@, *final(steps))) == eval_block(
            statements@,
            0,
            (old(stack).frames().push(Seq::empty()), old(stack).return_value, state_of(*old(stack), old(output)@, *old(steps)).2, *old(steps)),
            functions@,
            depth as nat,
        ),
        evaluation_frame(*old(stack), *final(stack), old(output)@, final(output)@, *old(steps), *final(steps)),
    decreases depth, 1nat,
{
    stack.open_closure();
    let ghost start = state_of(*stack, output@, *steps);
    assert(start == (old(stack).frames().push(Seq::empty()), old(stack).return_value, state_of(*old(stack), old(output)@, *old(steps)).2, *old(steps)));
    let mut k: usize = 0;
    while k < statements.len()
        invariant
            stack.frames().len() == old(stack).frames().len() + 1,
            stack.frames()[0].len() >= old(stack).frames()[0].len(),
            old(stack).frames().len() > 0,
            extends(output@, old(output)@),
            *steps <= *old(steps),
            k <= statements@.len(),
            eval_block(statements@, k as int, state_of(*stack, output@, *steps), functions@, depth as nat)
                == eval_block(statements@, 0, start, functions@, depth as nat),
            start == (old(stack).frames().push(Seq::empty()), old(stack).return_value, state_of(*old(stack), old(output)@, *old(steps)).2, *old(steps)),
        decreases statements@.len() - k,
    {
        let ghost here = state_of(*stack, output@, *steps);
        if stack.return_value.is_some() {
            stack.close_closure();
            assert(state_of(*stack, output@, *steps) == closed(here));
            return Ok(KodyValue::Empty);
        }
        let outcome = execute_node(&statements[k], stack, functions, output, steps, depth);
        let ghost after = state_of(*stack, output@, *steps);
        assert(eval(statements@[k as int], here, functions@, depth as nat) == (outcome, after));
        if let Err(e) = outcome {
            stack.close_closure();
            assert(state_of(*stack, output@, *steps) == closed(after));
            return Err(e);
        }
        k = k + 1;
    }
    let ghost here = state_of(*stack, output@, *steps);
    stack.close_closure();
    assert(state_of(*stack, output@, *steps) == closed(here));
    Ok(KodyValue::Empty)
}

/// Evaluates a condition, which must give a boolean.
fn execute_condition(
    condition: &KodyNode,
    stack: &mut VariableStack,
    functions: &Vec<KodyFunctionData>,
    output: &mut Vec<Vec<KodyValue>>,
    steps: &mut u64,
    depth: usize,
) -> (r: Result<bool, RuntimeError>)
    requires
        old(stack).frames().len() > 0,
    ensures
        ({
            let (c, st) = eval(*condition, state_of(*old(stack), old(output)@, *old(steps)), functions@, depth as nat);
            r == condition_result(c) && state_of(*final(stack), final(output)@, *final(steps)) == st
        }),
        evaluation_frame(*old(stack), *final(stack), old(output)@, final(output)@, *old(steps), *final(steps)),
    decreases depth, 1nat,
{
    match execute_node(condition, stack, functions, output, steps, depth)? {
        KodyValue::Bool(b) => Ok(b),
        _ => Err(RuntimeError::NonBooleanCondition),
    }
}

/// Runs the action when the condition is true, else the `else` action if any.
pub fn execute_if_statement(
    condition: &KodyNode,
    action: &KodyNode,
    else_action: &Option<Box<KodyNode>>,
    stack: &mut VariableStack,
    functions: &Vec<KodyFunctionData>,
    output: &mut Vec<Vec<KodyValue>>,
    steps: &mut u64,
    depth: usize,
) -> (r: Result<KodyValue, RuntimeError>)
    requires
        old(stack).frames().len() > 0,
    ensures
        (r, state_of(*final(stack), final(output)@, *final(steps))) == eval_if(
            *condition,
            *action,
            *else_action,
            state_of(*old(stack), old(output)@, *old(steps)),
            functions@,
            depth as nat,
        ),
        evaluation_frame(*old(stack), *final(stack), old(output)@, final(output)@, *old(steps), *final(steps)),
    decreases depth, 2nat,
{
    if execute_condition(condition, stack, functions, output, steps, depth)? {
        execute_node(action, stack, functions, output, steps, depth)?;
    } else if let Some(node) = else_action {
        execute_node(node, stack, functions, output, steps, depth)?;
    }
    Ok(KodyValue::Empty)
}

/// Re-evaluates the condition before each run of the action, until it is
/// false or a `return` has happened. Each iteration takes one step.
pub fn execute_while_statement(
    condition: &KodyNode,
    action: &KodyNode,
    stack: &mut VariableStack,
    functions: &Vec<KodyFunctionData>,
    output: &mut Vec<Vec<KodyValue>>,
    steps: &mut u64,
    depth: usize,
) -> (r: Result<KodyValue, RuntimeError>)
    requires
        old(stack).frames().len() > 0,
    ensures
        (r, state_of(*final(stack), final(output)@, *final(steps))) == eval_while(
            *condition,
            *action,
            state_of(*old(stack), old(output)@, *old(steps)),
            functions@,
            depth as nat,
        ),
        evaluation_frame(*old(stack), *final(stack), old(output)@, final(output)@, *old(steps), *final(steps)),
    decreases depth, 2nat,
{
    let ghost start = state_of(*stack, output@, *steps);
    loop
        invariant
            stack.frames().len() == old(stack).frames().len(),
            stack.frames()[0].len() >= old(stack).frames()[0].len(),
            old(stack).frames().len() > 0,
            extends(output@, old(output)@),
            *steps <= *old(steps),
            eval_while(*condition, *action, state_of(*stack, output@, *steps), functions@, depth as nat)
                == eval_while(*condition, *action, start, functions@, depth as nat),
            start == state_of(*old(stack), old(output)@, *old(steps)),
        decreases *steps,
    {
        let ghost round = state_of(*stack, output@, *steps);
        if *steps == 0 {
            return Err(RuntimeError::ResourceExhausted);
        }
        *steps = *steps - 1;
        let ghost s0 = state_of(*stack, output@, *steps);
        assert(s0 == (round.0, round.1, round.2, (round.3 - 1) as u64));
        let go_on = execute_condition(condition, stack, functions, output, steps, depth)?;
        if !go_on || stack.return_value.is_some() {
            return Ok(KodyValue::Empty);
        }
        let ghost s1 = state_of(*stack, output@, *steps);
        execute_node(action, stack, functions, output, steps, depth)?;
        if stack.return_value.is_some() {
            return Ok(KodyValue::Empty);
        }
        assert(*steps < round.3);
    }
}

/// Evaluates the callee and then every argument, left to right, and calls:
/// a native function directly (`print` appends its arguments to `output`),
/// a user function in a fresh stack of the global frame and a frame of its
/// parameters. Its result is the value it returned, or the empty value.
pub fn execute_function_call(
    function: &KodyNode,
    arguments: &Vec<KodyNode>,
    stack: &mut VariableStack,
    functions: &Vec<KodyFunctionData>,
    output: &mut Vec<Vec<KodyValue>>,
    steps: &mut u64,
    depth: usize,
) -> (r: Result<KodyValue, RuntimeError>)
    requires
        old(stack).frames().len() > 0,
    ensures
        (r, state_of(*final(stack), final(output)@, *final(steps))) == eval_call(
            *function,
            arguments@,
            state_of(*old(stack), old(output)@, *old(steps)),
            functions@,
            depth as nat,
        ),
        evaluation_frame(*old(stack), *final(stack), old(output)@, final(output)@, *old(steps), *final(steps)),
    decreases depth, 2nat,
{
    let callee = execute_node(function, stack, functions, output, steps, depth)?;
    let ghost after_callee = state_of(*stack, output@, *steps);
    let mut values: Vec<KodyValue> = Vec::new();
    let mut k: usize = 0;
    while k < arguments.len()
        invariant
            stack.frames().len() == old(stack).frames().len(),
            stack.frames()[0].len() >= old(stack).frames()[0].len(),
            old(stack).frames().len() > 0,
            extends(output@, old(output)@),
            *steps <= *old(steps),
            k <= arguments@.len(),
            values@.len() == k,
            eval_args(arguments@, k as int, values@, state_of(*stack, output@, *steps), functions@, depth as nat)
                == eval_args(arguments@, 0, Seq::empty(), after_callee, functions@, depth as nat),
            eval(*function, state_of(*old(stack), old(output)@, *old(steps)), functions@, depth as nat) == (Ok::<KodyValue, RuntimeError>(callee), after_callee),
        decreases arguments@.len() - k,
    {
        let v = execute_node(&arguments[k], stack, functions, output, steps, depth)?;
        values.push(v);
        k = k + 1;
    }
    let ghost after_args = state_of(*stack, output@, *steps);
    match callee {
        KodyValue::NativeFunction(NativeFunction::Print) => {
            let ghost line = values@;
            output.push(values);
            assert(output@.map_values(|l: Vec<KodyValue>| l@) =~= after_args.2.push(line));
            Ok(KodyValue::Empty)
        },
        KodyValue::NativeFunction(f) => {
            let mut objects: Vec<KodyObject> = Vec::new();
            let mut i: usize = 0;
            while i < values.len()
                invariant
                    i <= values@.len(),
                    objects@.len() == i,
                    values_of(objects@) == values@.subrange(0, i as int),
                decreases values@.len() - i,
            {
                let ghost before = objects@;
                objects.push(KodyObject::from(values[i].duplicate()));
                i = i + 1;
                assert forall|j: int| 0 <= j < i implies #[trigger] values_of(objects@)[j] == values@.subrange(0, i as int)[j] by {
                    if j < i - 1 {
                        assert(objects@[j] == before[j]);
                        assert(values_of(before)[j] == values@.subrange(0, i - 1)[j]);
                    }
                }
                assert(values_of(objects@) =~= values@.subrange(0, i as int));
            }
            assert(values@.subrange(0, values@.len() as int) =~= values@);
            let result = call_native(f, objects)?;
            Ok(*result.value)
        },
        KodyValue::Function(index) => {
            if index >= functions.len() {
                return Err(RuntimeError::UnknownFunction);
            }
            let data = &functions[index];
            if data.arguments.len() != values.len() {
                return Err(RuntimeError::ArityMismatch);
            }
            let mut parameters: Frame = Vec::new();
            let mut i: usize = 0;
            while i < values.len()
                invariant
                    i <= values@.len(),
                    values@.len() == data.arguments@.len(),
                    parameters@ == parameter_frame(data.arguments@, values@).subrange(0, i as int),
                decreases values@.len() - i,
            {
                parameters.push((data.arguments[i].clone(), values[i].duplicate()));
                i = i + 1;
                assert(parameters@ =~= parameter_frame(data.arguments@, values@).subrange(0, i as int));
            }
            assert(parameter_frame(data.arguments@, values@).subrange(0, i as int) =~= parameter_frame(data.arguments@, values@));
            assert(stack.frames()[0] == stack.closures@[0]@);
            let globals = duplicate_frame(&stack.closures[0]);
            let mut call_stack = VariableStack::new(globals);
            let ghost first = call_stack.frames();
            assert(first.len() == call_stack.closures@.len());
            assert(first[0] == call_stack.closures@[0]@);
            let ghost params = parameters@;
            call_stack.closures.push(parameters);
            assert(call_stack.closures@[1]@ == params);
            assert(call_stack.frames() =~= seq![after_args.0[0], parameter_frame(data.arguments@, values@)]);
            execute_node(&data.body, &mut call_stack, functions, output, steps, depth)?;
            match call_stack.return_value {
                Some(v) => Ok(v),
                None => Ok(KodyValue::Empty),
            }
        },
        _ => Err(RuntimeError::NotCallable),
    }
}

proof fn lemma_assign_shape(frames: Seq<Seq<(String, KodyValue)>>, name: String, value: KodyValue)
    requires
        frames.len() > 0,
    ensures
        assign_spec(frames, name, value).len() == frames.len(),
        forall|j: int| 0 <= j < frames.len() ==> #[trigger] assign_spec(frames, name, value)[j].len() >= frames[j].len(),
{
    lemma_frame_index(frames, name@);
    if let Some(k) = frame_index(frames, name@) {
        lemma_entry_index(frames[k], name@);
    }
}

/// The frames after binding each user function under its name in turn,
/// starting from one empty frame: a later definition of a name replaces an
/// earlier one.
pub open spec fn globals_spec(fns: Seq<KodyFunctionData>, n: nat) -> Seq<Seq<(String, KodyValue)>>
    decreases n,
{
    if n == 0 {
        seq![Seq::empty()]
    } else {
        assign_spec(
            globals_spec(fns, (n - 1) as nat),
            fns[n - 1].name,
            KodyValue::Function((n - 1) as usize),
        )
    }
}

proof fn lemma_globals_one_frame(fns: Seq<KodyFunctionData>, n: nat)
    ensures
        globals_spec(fns, n).len() == 1,
    decreases n,
{
    if n > 0 {
        lemma_globals_one_frame(fns, (n - 1) as nat);
        lemma_assign_shape(globals_spec(fns, (n - 1) as nat), fns[n - 1].name, KodyValue::Function((n - 1) as usize));
    }
}

/// The global frame of a program: each user function bound under its name.
pub fn global_frame(functions: &Vec<KodyFunctionData>) -> (r: Frame)
    ensures
        r@ == globals_spec(functions@, functions@.len())[0],
{
    let mut stack = VariableStack::new(Vec::new());
    assert(stack.frames() =~= globals_spec(functions@, 0));
    let mut i: usize = 0;
    while i < functions.len()
        invariant
            i <= functions@.len(),
            stack.frames() == globals_spec(functions@, i as nat),
        decreases functions@.len() - i,
    {
        proof {
            lemma_globals_one_frame(functions@, i as nat);
        }
        stack.set(&functions[i].name, KodyValue::Function(i));
        i = i + 1;
    }
    proof {
        lemma_globals_one_frame(functions@, i as nat);
    }
    assert(stack.closures@.len() == stack.frames().len());
    assert(stack.frames()[0] == stack.closures@[0]@);
    let r = stack.closures.pop().unwrap();
    r
}

/// Runs a program, as `eval` says: the main block is evaluated with the
/// user functions as global variables, `MAX_DEPTH` levels of nesting and a
/// loop budget of `u64::MAX` rounds; what `print` shows is appended to
/// `output`. The result is the value the main block returned, or the empty
/// value.
pub fn execute(syntax_tree: &KodySyntaxTree, output: &mut Vec<Vec<KodyValue>>) -> (r: Result<KodyObject, RuntimeError>)
    ensures
        ({
            let init = (
                seq![globals_spec(syntax_tree.functions@, syntax_tree.functions@.len())[0]],
                None::<KodyValue>,
                old(output)@.map_values(|line: Vec<KodyValue>| line@),
                u64::MAX,
            );
            let (res, st) = eval(syntax_tree.main, init, syntax_tree.functions@, MAX_DEPTH as nat);
            &&& final(output)@.map_values(|line: Vec<KodyValue>| line@) == st.2
            &&& match res {
                Ok(_) => r matches Ok(o) && *o.value == match st.1 {
                    Some(v) => v,
                    None => KodyValue::Empty,
                },
                Err(e) => r == Err::<KodyObject, RuntimeError>(e),
            }
        }),
{
    let mut stack = VariableStack::new(global_frame(&syntax_tree.functions));
    let mut steps: u64 = u64::MAX;
    execute_node(&syntax_tree.main, &mut stack, &syntax_tree.functions, output, &mut steps, MAX_DEPTH)?;
    match stack.return_value {
        Some(v) => Ok(KodyObject::from(v)),
        None => Ok(KodyObject::new()),
    }
}

} // verus!
