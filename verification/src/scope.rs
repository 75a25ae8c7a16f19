//! The scope stack: an ordered stack of frames, each a table from names to
//! objects. Frame 0 is permanent; the last frame is the current one.

use crate::error::{ErrorView, VmError};
use crate::yapko::{
    captures_view, generate_null, lemma_object_members, null_object, MemberView, ObjectView,
    VariableView, YapkoObject,
};
use vstd::prelude::*;

verus! {

/// One entry of a frame: a name and the object bound to it.
#[derive(Debug)]
pub struct Binding {
    pub name: String,
    pub value: YapkoObject,
}

/// One level of the scope stack. Its bindings stand in the order in which
/// their names were first bound.
#[derive(Debug)]
pub struct Frame {
    pub bindings: Vec<Binding>,
}

/// The mathematical content of a [`Binding`].
#[verifier::ext_equal]
pub struct BindingView {
    pub name: Seq<char>,
    pub value: ObjectView,
}

impl View for Binding {
    type V = BindingView;

    open spec fn view(&self) -> BindingView {
        BindingView { name: self.name@, value: self.value@ }
    }
}

impl View for Frame {
    type V = Seq<BindingView>;

    open spec fn view(&self) -> Seq<BindingView> {
        Seq::new(self.bindings@.len(), |i: int| self.bindings@[i]@)
    }
}

/// The content of a run of frames.
pub open spec fn frames_view(frames: Seq<Frame>) -> Seq<Seq<BindingView>> {
    Seq::new(frames.len(), |i: int| frames[i]@)
}

/// The index of the first binding at or after `from` that has the given name.
pub open spec fn binding_position(frame: Seq<BindingView>, name: Seq<char>, from: int) -> Option<
    int,
>
    decreases frame.len() - from,
{
    if from < 0 || from >= frame.len() {
        None
    } else if frame[from].name == name {
        Some(from)
    } else {
        binding_position(frame, name, from + 1)
    }
}

/// The object that a frame binds to a name.
pub open spec fn frame_get(frame: Seq<BindingView>, name: Seq<char>) -> Option<ObjectView> {
    match binding_position(frame, name, 0) {
        Some(i) => Some(frame[i].value),
        None => None,
    }
}

/// A frame with `name` bound to `value`: a binding of that name is replaced
/// where it stands, a new name goes to the end.
pub open spec fn frame_with(frame: Seq<BindingView>, name: Seq<char>, value: ObjectView) -> Seq<
    BindingView,
> {
    match binding_position(frame, name, 0) {
        Some(i) => frame.update(i, BindingView { name, value }),
        None => frame.push(BindingView { name, value }),
    }
}

/// The member table that a frame's bindings make: one member for each, in
/// order, holding the bound object.
pub open spec fn frame_members(frame: Seq<BindingView>) -> Seq<MemberView> {
    Seq::new(
        frame.len(),
        |i: int| MemberView { name: frame[i].name, value: VariableView::YapkoObject(frame[i].value) },
    )
}

/// The index of the innermost frame, at or below `top`, that binds the name.
pub open spec fn innermost(frames: Seq<Seq<BindingView>>, name: Seq<char>, top: int) -> Option<
    int,
>
    decreases top + 1,
{
    if top < 0 || top >= frames.len() {
        None
    } else if frame_get(frames[top], name) is Some {
        Some(top)
    } else {
        innermost(frames, name, top - 1)
    }
}

/// The object that a name resolves to: its binding in the innermost frame
/// that has one, or a lookup error.
pub open spec fn resolve_spec(frames: Seq<Seq<BindingView>>, name: Seq<char>) -> Result<
    ObjectView,
    ErrorView,
> {
    match innermost(frames, name, frames.len() - 1) {
        Some(i) => Ok(frame_get(frames[i], name)->0),
        None => Err(ErrorView::Lookup(name)),
    }
}

/// The frames after `name` was declared in the current frame, bound to a null
/// object, or a lookup error where the current frame binds the name already.
pub open spec fn declare_spec(frames: Seq<Seq<BindingView>>, name: Seq<char>) -> Result<
    Seq<Seq<BindingView>>,
    ErrorView,
> {
    if frame_get(frames.last(), name) is Some {
        Err(ErrorView::Lookup(name))
    } else {
        Ok(
            frames.update(
                frames.len() - 1,
                frames.last().push(BindingView { name, value: null_object(name) }),
            ),
        )
    }
}

/// An object under another name.
pub open spec fn renamed(value: ObjectView, name: Seq<char>) -> ObjectView {
    ObjectView { name, ..value }
}

/// The frames after an assignment: the innermost binding of `name` holds
/// `value` under that name. Where no frame binds the name, nothing changes.
pub open spec fn assign_spec(
    frames: Seq<Seq<BindingView>>,
    name: Seq<char>,
    value: ObjectView,
) -> Seq<Seq<BindingView>> {
    match innermost(frames, name, frames.len() - 1) {
        Some(i) => frames.update(i, frame_with(frames[i], name, renamed(value, name))),
        None => frames,
    }
}

/// The frames after `name` was bound to `value` in the current frame.
pub open spec fn bind_spec(
    frames: Seq<Seq<BindingView>>,
    name: Seq<char>,
    value: ObjectView,
) -> Seq<Seq<BindingView>> {
    frames.update(frames.len() - 1, frame_with(frames.last(), name, value))
}

/// Whether a capture list holds the name.
pub open spec fn captured(list: Seq<(usize, Seq<char>)>, name: Seq<char>) -> bool {
    exists|k: int| 0 <= k < list.len() && (#[trigger] list[k]).1 == name
}

/// A capture list extended by the bindings of one frame from `from` on: each
/// name that the list does not hold yet is added with the frame's index.
pub open spec fn capture_frame(
    list: Seq<(usize, Seq<char>)>,
    frame: Seq<BindingView>,
    index: usize,
    from: int,
) -> Seq<(usize, Seq<char>)>
    decreases frame.len() - from,
{
    if from < 0 || from >= frame.len() {
        list
    } else if captured(list, frame[from].name) {
        capture_frame(list, frame, index, from + 1)
    } else {
        capture_frame(list.push((index, frame[from].name)), frame, index, from + 1)
    }
}

/// A capture list extended by the frames from `top` down to frame 0.
pub open spec fn capture_down(
    list: Seq<(usize, Seq<char>)>,
    frames: Seq<Seq<BindingView>>,
    top: int,
) -> Seq<(usize, Seq<char>)>
    decreases top + 1,
{
    if top < 0 || top >= frames.len() {
        list
    } else {
        capture_down(capture_frame(list, frames[top], top as usize, 0), frames, top - 1)
    }
}

/// The names visible from the current frame, each with the index of the
/// innermost frame that binds it: the frames are walked from the current one
/// down to frame 0, and a name is kept where it is met first.
pub open spec fn capture_visible_spec(frames: Seq<Seq<BindingView>>) -> Seq<(usize, Seq<char>)> {
    capture_down(Seq::empty(), frames, frames.len() - 1)
}

/// The frame index that a capture list records for a name: that of the last
/// entry, before `upto`, with the name.
pub open spec fn last_capture(list: Seq<(usize, Seq<char>)>, name: Seq<char>, upto: int) -> Option<
    usize,
>
    decreases upto,
{
    if upto <= 0 || upto > list.len() {
        None
    } else if list[upto - 1].1 == name {
        Some(list[upto - 1].0)
    } else {
        last_capture(list, name, upto - 1)
    }
}

/// What reading a name gives. With an empty capture list the name resolves
/// through the frames. With a capture list the current frame is asked first,
/// then the frame whose index the list records for the name, whatever frame
/// stands at that index by now.
pub open spec fn lookup_spec(
    frames: Seq<Seq<BindingView>>,
    captures: Seq<(usize, Seq<char>)>,
    name: Seq<char>,
) -> Result<ObjectView, ErrorView> {
    if captures.len() == 0 {
        resolve_spec(frames, name)
    } else if frame_get(frames.last(), name) is Some {
        Ok(frame_get(frames.last(), name)->0)
    } else {
        match last_capture(captures, name, captures.len() as int) {
            Some(index) => if index < frames.len() && frame_get(frames[index as int], name)
                is Some {
                Ok(frame_get(frames[index as int], name)->0)
            } else {
                Err(ErrorView::Lookup(name))
            },
            None => Err(ErrorView::Lookup(name)),
        }
    }
}

/// Whether no two bindings of a frame share a name.
pub open spec fn distinct_names(frame: Seq<BindingView>) -> bool {
    forall|i: int, j: int|
        0 <= i < j < frame.len() ==> (#[trigger] frame[i]).name != (#[trigger] frame[j]).name
}

/// A found position lies in the frame, holds the name, and is the first to.
pub proof fn lemma_binding_position(frame: Seq<BindingView>, name: Seq<char>, from: int)
    requires
        0 <= from,
    ensures
        match binding_position(frame, name, from) {
            Some(i) => from <= i < frame.len() && frame[i].name == name && forall|k: int|
                from <= k < i ==> (#[trigger] frame[k]).name != name,
            None => forall|k: int| from <= k < frame.len() ==> (#[trigger] frame[k]).name != name,
        },
    decreases frame.len() - from,
{
    if from < frame.len() && frame[from].name != name {
        lemma_binding_position(frame, name, from + 1);
    }
}

/// Frames that hold the same names at the same places bind a name at the
/// same place.
pub proof fn lemma_position_by_names(
    a: Seq<BindingView>,
    b: Seq<BindingView>,
    name: Seq<char>,
    from: int,
)
    requires
        a.len() == b.len(),
        forall|k: int| 0 <= k < a.len() ==> (#[trigger] a[k]).name == b[k].name,
    ensures
        binding_position(a, name, from) == binding_position(b, name, from),
    decreases a.len() - from,
{
    if 0 <= from < a.len() && a[from].name != name {
        lemma_position_by_names(a, b, name, from + 1);
    }
}

/// A binding added at the end of a frame is found where the frame did not
/// bind its name, and changes the place of no other name.
pub proof fn lemma_position_push(
    frame: Seq<BindingView>,
    binding: BindingView,
    name: Seq<char>,
    from: int,
)
    requires
        0 <= from <= frame.len(),
    ensures
        binding_position(frame.push(binding), name, from) == (match binding_position(
            frame,
            name,
            from,
        ) {
            Some(i) => Some(i),
            None => if binding.name == name {
                Some(frame.len() as int)
            } else {
                None
            },
        }),
    decreases frame.len() - from,
{
    let grown = frame.push(binding);
    if from < frame.len() {
        assert(grown[from] == frame[from]);
        if frame[from].name != name {
            lemma_position_push(frame, binding, name, from + 1);
        }
    } else {
        assert(grown[from] == binding);
        assert(binding_position(grown, name, from + 1) is None);
    }
}

/// Binding is local to a name: the frame then binds the name to the value,
/// and every other name to what it was bound to.
pub proof fn lemma_frame_with_get(
    frame: Seq<BindingView>,
    name: Seq<char>,
    value: ObjectView,
    other: Seq<char>,
)
    ensures
        frame_get(frame_with(frame, name, value), name) == Some(value),
        other != name ==> frame_get(frame_with(frame, name, value), other) == frame_get(
            frame,
            other,
        ),
{
    let after = frame_with(frame, name, value);
    lemma_binding_position(frame, name, 0);
    lemma_binding_position(frame, other, 0);
    match binding_position(frame, name, 0) {
        Some(i) => {
            lemma_position_by_names(frame, after, name, 0);
            lemma_position_by_names(frame, after, other, 0);
        },
        None => {
            lemma_position_push(frame, BindingView { name, value }, name, 0);
            lemma_position_push(frame, BindingView { name, value }, other, 0);
            if other != name && binding_position(frame, other, 0) is Some {
                assert(after[binding_position(frame, other, 0)->0] == frame[binding_position(
                    frame,
                    other,
                    0,
                )->0]);
            }
        },
    }
}

/// Whether no frame binds a name twice.
pub open spec fn all_distinct(frames: Seq<Seq<BindingView>>) -> bool {
    forall|f: int| 0 <= f < frames.len() ==> distinct_names(#[trigger] frames[f])
}

/// Binding a name keeps the names of a frame apart.
pub proof fn lemma_frame_with_distinct(frame: Seq<BindingView>, name: Seq<char>, value: ObjectView)
    requires
        distinct_names(frame),
    ensures
        distinct_names(frame_with(frame, name, value)),
{
    lemma_binding_position(frame, name, 0);
    let after = frame_with(frame, name, value);
    assert forall|i: int, j: int| 0 <= i < j < after.len() implies (#[trigger] after[i]).name != (
    #[trigger] after[j]).name by {
        if binding_position(frame, name, 0) is Some {
            assert(after[i].name == frame[i].name);
            assert(after[j].name == frame[j].name);
        } else if j == frame.len() {
            assert(frame[i].name != name);
        } else {
            assert(after[i] == frame[i]);
            assert(after[j] == frame[j]);
        }
    }
}

/// Declaring, assigning and binding keep the names of every frame apart.
pub proof fn lemma_scopes_stay_distinct(
    frames: Seq<Seq<BindingView>>,
    name: Seq<char>,
    value: ObjectView,
)
    requires
        frames.len() >= 1,
        all_distinct(frames),
    ensures
        declare_spec(frames, name) is Ok ==> all_distinct(declare_spec(frames, name)->Ok_0),
        all_distinct(assign_spec(frames, name, value)),
        all_distinct(bind_spec(frames, name, value)),
        forall|index: int|
            0 <= index < frames.len() ==> all_distinct(
                #[trigger] frames.update(index, frame_with(frames[index], name, value)),
            ),
        all_distinct(frames.push(Seq::empty())),
        all_distinct(frames.drop_last()),
{
    let last = frames.len() - 1;
    assert(distinct_names(frames[last]));
    lemma_binding_position(frames[last], name, 0);
    lemma_frame_with_distinct(frames[last], name, value);
    assert forall|index: int| 0 <= index < frames.len() implies all_distinct(
        #[trigger] frames.update(index, frame_with(frames[index], name, value)),
    ) by {
        assert(distinct_names(frames[index]));
        lemma_frame_with_distinct(frames[index], name, value);
        let after = frames.update(index, frame_with(frames[index], name, value));
        assert forall|f: int| 0 <= f < after.len() implies distinct_names(#[trigger] after[f]) by {
            if f != index {
                assert(after[f] == frames[f]);
            }
        }
    }
    if declare_spec(frames, name) is Ok {
        let after = declare_spec(frames, name)->Ok_0;
        let grown = frames[last].push(BindingView { name, value: null_object(name) });
        assert forall|i: int, j: int| 0 <= i < j < grown.len() implies (#[trigger] grown[i]).name
            != (#[trigger] grown[j]).name by {
            if j == frames[last].len() {
                assert(frames[last][i].name != name);
            } else {
                assert(grown[i] == frames[last][i]);
                assert(grown[j] == frames[last][j]);
            }
        }
        assert forall|f: int| 0 <= f < after.len() implies distinct_names(#[trigger] after[f]) by {
            if f != last {
                assert(after[f] == frames[f]);
            }
        }
    }
    match innermost(frames, name, last) {
        Some(i) => {
            lemma_innermost_bounds(frames, name, last);
            assert(frames.update(i, frame_with(frames[i], name, renamed(value, name)))
                == assign_spec(frames, name, value));
            assert(distinct_names(frames[i]));
            lemma_frame_with_distinct(frames[i], name, renamed(value, name));
            let after = assign_spec(frames, name, value);
            assert forall|f: int| 0 <= f < after.len() implies distinct_names(
                #[trigger] after[f],
            ) by {
                if f != i {
                    assert(after[f] == frames[f]);
                }
            }
        },
        None => {},
    }
    let pushed = frames.push(Seq::<BindingView>::empty());
    assert forall|f: int| 0 <= f < pushed.len() implies distinct_names(#[trigger] pushed[f]) by {
        if f < frames.len() {
            assert(pushed[f] == frames[f]);
        }
    }
    let popped = frames.drop_last();
    assert forall|f: int| 0 <= f < popped.len() implies distinct_names(#[trigger] popped[f]) by {
        assert(popped[f] == frames[f]);
    }
}

/// The frame that resolution picks lies at or below the frame it began with.
pub proof fn lemma_innermost_bounds(frames: Seq<Seq<BindingView>>, name: Seq<char>, top: int)
    ensures
        innermost(frames, name, top) is Some ==> 0 <= innermost(frames, name, top)->0 <= top
            && innermost(frames, name, top)->0 < frames.len(),
    decreases top + 1,
{
    if 0 <= top < frames.len() && frame_get(frames[top], name) is None {
        lemma_innermost_bounds(frames, name, top - 1);
    }
}

/// The members that a frame's bindings make have their names apart where the
/// bindings have.
pub proof fn lemma_frame_members_distinct(frame: Seq<BindingView>)
    requires
        distinct_names(frame),
    ensures
        crate::yapko::distinct_members(frame_members(frame)),
{
    let members = frame_members(frame);
    assert forall|i: int, j: int| 0 <= i < j < members.len() implies (#[trigger] members[i]).name
        != (#[trigger] members[j]).name by {
        assert(members[i].name == frame[i].name);
        assert(members[j].name == frame[j].name);
    }
}

impl Clone for Binding {
    /// A copy with the same content.
    fn clone(&self) -> (r: Self)
        ensures
            r@ == self@,
    {
        Binding { name: self.name.clone(), value: self.value.clone() }
    }
}

impl Clone for Frame {
    /// A copy with the same content.
    fn clone(&self) -> (r: Self)
        ensures
            r@ == self@,
    {
        let mut bindings: Vec<Binding> = Vec::new();
        let mut i: usize = 0;
        while i < self.bindings.len()
            invariant
                i <= self.bindings.len(),
                bindings@.len() == i,
                forall|k: int| 0 <= k < i ==> (#[trigger] bindings@[k])@ == self.bindings@[k]@,
            decreases self.bindings.len() - i,
        {
            bindings.push(self.bindings[i].clone());
            i = i + 1;
        }
        let r = Frame { bindings };
        assert(r@ =~= self@);
        r
    }
}

impl Frame {
    /// A frame without bindings.
    pub fn new() -> (r: Frame)
        ensures
            r@ == Seq::<BindingView>::empty(),
            distinct_names(r@),
    {
        let r = Frame { bindings: Vec::new() };
        assert(r@ =~= Seq::<BindingView>::empty());
        r
    }

    /// The index of the binding of `name`.
    pub fn position(&self, name: &String) -> (r: Option<usize>)
        ensures
            r is Some <==> binding_position(self@, name@, 0) is Some,
            r is Some ==> r->0 < self.bindings.len() && binding_position(self@, name@, 0) == Some(
                r->0 as int,
            ),
    {
        let mut i: usize = 0;
        while i < self.bindings.len()
            invariant
                i <= self.bindings.len(),
                binding_position(self@, name@, i as int) == binding_position(self@, name@, 0),
            decreases self.bindings.len() - i,
        {
            if self.bindings[i].name == *name {
                return Some(i);
            }
            i = i + 1;
        }
        None
    }

    /// Whether the frame binds `name`.
    pub fn contains(&self, name: &String) -> (r: bool)
        ensures
            r == frame_get(self@, name@).is_some(),
    {
        self.position(name).is_some()
    }

    /// The object bound to `name`.
    pub fn get(&self, name: &String) -> (r: Option<&YapkoObject>)
        ensures
            match frame_get(self@, name@) {
                Some(o) => r is Some && r->0@ == o,
                None => r is None,
            },
    {
        match self.position(name) {
            Some(i) => Some(&self.bindings[i].value),
            None => None,
        }
    }

    /// Binds `name` to `value`: a binding of that name is replaced, a new
    /// name is added at the end.
    pub fn insert(&mut self, name: String, value: YapkoObject)
        ensures
            final(self)@ == frame_with(old(self)@, name@, value@),
            distinct_names(old(self)@) ==> distinct_names(final(self)@),
    {
        proof {
            if distinct_names(self@) {
                lemma_frame_with_distinct(self@, name@, value@);
            }
        }
        let found = self.position(&name);
        match found {
            Some(i) => {
                self.bindings.set(i, Binding { name, value });
            },
            None => {
                self.bindings.push(Binding { name, value });
            },
        }
        assert(self@ =~= frame_with(old(self)@, name@, value@));
    }

    /// The number of bindings.
    pub fn len(&self) -> (r: usize)
        ensures
            r == self@.len(),
    {
        self.bindings.len()
    }
}

/// The scope stack. It always holds frame 0.
#[derive(Debug)]
pub struct ScopeStack {
    frames: Vec<Frame>,
}

impl View for ScopeStack {
    type V = Seq<Seq<BindingView>>;

    closed spec fn view(&self) -> Seq<Seq<BindingView>> {
        frames_view(self.frames@)
    }
}

impl ScopeStack {
    /// Whether the stack is in order: it holds frame 0.
    pub open spec fn wf(&self) -> bool {
        self@.len() >= 1
    }

    /// A stack that holds an empty frame 0.
    pub fn new() -> (r: ScopeStack)
        ensures
            r.wf(),
            r@ == seq![Seq::<BindingView>::empty()],
            all_distinct(r@),
    {
        let mut frames: Vec<Frame> = Vec::new();
        frames.push(Frame::new());
        let r = ScopeStack { frames };
        assert(r@ =~= seq![Seq::<BindingView>::empty()]);
        r
    }

    /// The number of frames.
    pub fn depth(&self) -> (r: usize)
        ensures
            r == self@.len(),
    {
        self.frames.len()
    }

    /// The frame at `index`.
    pub fn frame(&self, index: usize) -> (r: &Frame)
        requires
            index < self@.len(),
        ensures
            r@ == self@[index as int],
    {
        &self.frames[index]
    }

    /// Replaces frame 0, which holds the bindings of the standard library.
    pub fn set_globals(&mut self, globals: Frame)
        requires
            old(self).wf(),
        ensures
            final(self).wf(),
            final(self)@ == old(self)@.update(0, globals@),
            all_distinct(old(self)@) && distinct_names(globals@) ==> all_distinct(final(self)@),
    {
        self.frames.set(0, globals);
        assert(self@ =~= old(self)@.update(0, globals@));
        proof {
            if all_distinct(old(self)@) && distinct_names(globals@) {
                assert forall|f: int| 0 <= f < self@.len() implies distinct_names(
                    #[trigger] self@[f],
                ) by {
                    if f != 0 {
                        assert(self@[f] == old(self)@[f]);
                    }
                }
            }
        }
    }

    /// Opens a new, empty frame, which becomes the current one.
    pub fn push_frame(&mut self)
        ensures
            final(self)@ == old(self)@.push(Seq::<BindingView>::empty()),
            all_distinct(old(self)@) ==> all_distinct(final(self)@),
    {
        self.frames.push(Frame::new());
        assert(self@ =~= old(self)@.push(Seq::<BindingView>::empty()));
        proof {
            if all_distinct(old(self)@) {
                assert forall|f: int| 0 <= f < self@.len() implies distinct_names(
                    #[trigger] self@[f],
                ) by {
                    if f < old(self)@.len() {
                        assert(self@[f] == old(self)@[f]);
                    }
                }
            }
        }
    }

    /// Closes the current frame. Frame 0 is never closed: where it is the only
    /// frame, nothing happens.
    pub fn pop_frame(&mut self)
        requires
            old(self).wf(),
        ensures
            final(self).wf(),
            final(self)@ == (if old(self)@.len() > 1 {
                old(self)@.drop_last()
            } else {
                old(self)@
            }),
            all_distinct(old(self)@) ==> all_distinct(final(self)@),
    {
        proof {
            if all_distinct(self@) {
                lemma_scopes_stay_distinct(self@, Seq::empty(), null_object(Seq::empty()));
            }
        }
        if self.frames.len() > 1 {
            self.frames.pop();
            assert(self@ =~= old(self)@.drop_last());
        }
    }

    /// Declares `name` in the current frame, bound to a null object, and
    /// hands back a copy of that object. Fails where the current frame binds
    /// the name already; outer frames do not matter.
    pub fn declare(&mut self, name: String) -> (r: Result<YapkoObject, VmError>)
        requires
            old(self).wf(),
        ensures
            final(self).wf(),
            match declare_spec(old(self)@, name@) {
                Ok(frames) => final(self)@ == frames && r is Ok && r->Ok_0@ == null_object(name@),
                Err(e) => final(self)@ == old(self)@ && r is Err && r->Err_0@ == e,
            },
            all_distinct(old(self)@) ==> all_distinct(final(self)@),
    {
        proof {
            if all_distinct(self@) {
                lemma_scopes_stay_distinct(self@, name@, null_object(name@));
            }
        }
        let last = self.frames.len() - 1;
        if self.frames[last].contains(&name) {
            return Err(VmError::Lookup(name));
        }
        let object = generate_null(name.clone());
        let copy = object.clone();
        self.frames[last].bindings.push(Binding { name, value: object });
        assert(self.frames[last as int]@ =~= old(self)@.last().push(
            BindingView { name: name@, value: null_object(name@) },
        ));
        assert(self@ =~= old(self)@.update(old(self)@.len() - 1, self.frames[last as int]@));
        Ok(copy)
    }

    /// The index of the innermost frame that binds `name`.
    pub fn find(&self, name: &String) -> (r: Option<usize>)
        ensures
            r is Some <==> innermost(self@, name@, self@.len() - 1) is Some,
            r is Some ==> r->0 < self@.len() && innermost(self@, name@, self@.len() - 1) == Some(
                r->0 as int,
            ) && frame_get(self@[r->0 as int], name@) is Some,
    {
        let mut i: usize = self.frames.len();
        while i > 0
            invariant
                i <= self.frames.len(),
                innermost(self@, name@, i - 1) == innermost(self@, name@, self@.len() - 1),
            decreases i,
        {
            i = i - 1;
            if self.frames[i].contains(name) {
                return Some(i);
            }
        }
        None
    }

    /// A copy of the object that `name` resolves to: its binding in the
    /// innermost frame that has one.
    pub fn resolve(&self, name: &String) -> (r: Result<YapkoObject, VmError>)
        ensures
            match resolve_spec(self@, name@) {
                Ok(o) => r is Ok && r->Ok_0@ == o,
                Err(e) => r is Err && r->Err_0@ == e,
            },
    {
        match self.find(name) {
            Some(i) => match self.frames[i].get(name) {
                Some(object) => Ok(object.clone()),
                None => Err(VmError::Lookup(name.clone())),
            },
            None => Err(VmError::Lookup(name.clone())),
        }
    }

    /// A copy of the object that reading `name` gives while `captures` is the
    /// active capture list.
    #[verifier::loop_isolation(false)]
    pub fn lookup(&self, name: &String, captures: &Vec<(usize, String)>) -> (r: Result<
        YapkoObject,
        VmError,
    >)
        requires
            self.wf(),
        ensures
            match lookup_spec(self@, captures_view(captures@), name@) {
                Ok(o) => r is Ok && r->Ok_0@ == o,
                Err(e) => r is Err && r->Err_0@ == e,
            },
    {
        if captures.len() == 0 {
            return self.resolve(name);
        }
        let last = self.frames.len() - 1;
        match self.frames[last].get(name) {
            Some(object) => {
                return Ok(object.clone());
            },
            None => {},
        }
        let mut i: usize = captures.len();
        while i > 0
            invariant
                i <= captures.len(),
                last_capture(captures_view(captures@), name@, i as int) == last_capture(
                    captures_view(captures@),
                    name@,
                    captures.len() as int,
                ),
            decreases i,
        {
            i = i - 1;
            if captures[i].1 == *name {
                let index = captures[i].0;
                if index < self.frames.len() {
                    match self.frames[index].get(name) {
                        Some(object) => {
                            return Ok(object.clone());
                        },
                        None => {},
                    }
                }
                return Err(VmError::Lookup(name.clone()));
            }
        }
        Err(VmError::Lookup(name.clone()))
    }

    /// Assigns to the innermost binding of `name`: the bound object becomes
    /// `value`, which takes the name. Tells whether a binding was found;
    /// where none was, nothing changes.
    pub fn assign(&mut self, name: &String, value: YapkoObject) -> (found: bool)
        ensures
            final(self)@ == assign_spec(old(self)@, name@, value@),
            final(self)@.len() == old(self)@.len(),
            found == innermost(old(self)@, name@, old(self)@.len() - 1).is_some(),
            old(self).wf() && all_distinct(old(self)@) ==> all_distinct(final(self)@),
    {
        proof {
            if self.wf() && all_distinct(self@) {
                lemma_scopes_stay_distinct(self@, name@, value@);
            }
        }
        match self.find(name) {
            Some(i) => {
                let ghost given = value@;
                let mut object = value;
                proof {
                    lemma_object_members(object);
                }
                object.name = name.clone();
                proof {
                    lemma_object_members(object);
                    assert(object@ =~= renamed(given, name@));
                }
                self.frames[i].insert(name.clone(), object);
                assert(self@ =~= assign_spec(old(self)@, name@, given));
                true
            },
            None => false,
        }
    }

    /// Binds `name` to `value` in the frame at `index`, replacing a binding
    /// of that name.
    pub fn bind_at(&mut self, index: usize, name: String, value: YapkoObject)
        requires
            index < old(self)@.len(),
        ensures
            final(self)@ == old(self)@.update(
                index as int,
                frame_with(old(self)@[index as int], name@, value@),
            ),
            all_distinct(old(self)@) ==> all_distinct(final(self)@),
    {
        proof {
            if all_distinct(self@) {
                lemma_scopes_stay_distinct(self@, name@, value@);
            }
        }
        self.frames[index].insert(name, value);
        assert(self@ =~= old(self)@.update(
            index as int,
            frame_with(old(self)@[index as int], name@, value@),
        ));
    }

    /// Binds `name` to `value` in the current frame, replacing a binding of
    /// that name.
    pub fn bind(&mut self, name: String, value: YapkoObject)
        requires
            old(self).wf(),
        ensures
            final(self).wf(),
            final(self)@ == bind_spec(old(self)@, name@, value@),
            all_distinct(old(self)@) ==> all_distinct(final(self)@),
    {
        proof {
            if all_distinct(self@) {
                lemma_scopes_stay_distinct(self@, name@, value@);
            }
        }
        let last = self.frames.len() - 1;
        self.frames[last].insert(name, value);
        assert(self@ =~= bind_spec(old(self)@, name@, value@));
    }

    /// The capture list of a function defined now: every visible name with
    /// the index of the innermost frame that binds it.
    pub fn capture_visible(&self) -> (r: Vec<(usize, String)>)
        ensures
            captures_view(r@) == capture_visible_spec(self@),
    {
        let mut list: Vec<(usize, String)> = Vec::new();
        assert(captures_view(list@) =~= Seq::<(usize, Seq<char>)>::empty());
        let mut top: usize = self.frames.len();
        while top > 0
            invariant
                top <= self.frames.len(),
                capture_down(captures_view(list@), self@, top - 1) == capture_visible_spec(self@),
            decreases top,
        {
            top = top - 1;
            let frame = &self.frames[top];
            let ghost start = captures_view(list@);
            let mut i: usize = 0;
            while i < frame.bindings.len()
                invariant
                    i <= frame.bindings.len(),
                    frame@.len() == frame.bindings.len(),
                    capture_frame(captures_view(list@), frame@, top, i as int) == capture_frame(
                        start,
                        frame@,
                        top,
                        0,
                    ),
                decreases frame.bindings.len() - i,
            {
                let name = &frame.bindings[i].name;
                if !holds_name(&list, name) {
                    let ghost before = captures_view(list@);
                    list.push((top, name.clone()));
                    assert(captures_view(list@) =~= before.push((top, name@)));
                }
                i = i + 1;
            }
        }
        list
    }
}

/// Whether a capture list holds the name.
pub fn holds_name(list: &Vec<(usize, String)>, name: &String) -> (r: bool)
    ensures
        r == captured(captures_view(list@), name@),
{
    let mut i: usize = 0;
    while i < list.len()
        invariant
            i <= list.len(),
            forall|k: int| 0 <= k < i ==> (#[trigger] captures_view(list@)[k]).1 != name@,
        decreases list.len() - i,
    {
        if list[i].1 == *name {
            assert(captures_view(list@)[i as int].1 == name@);
            return true;
        }
        i = i + 1;
    }
    false
}

} // verus!
