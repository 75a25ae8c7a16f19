//! The object model: tagged values, objects with a member table, and the
//! constructors of the primitive kinds.

use vstd::prelude::*;

verus! {

/// A built-in operation. A native function value holds one of these, and the
/// engine runs it against the operand stack.
#[derive(Clone, Copy, Debug, PartialEq, Eq, Structural)]
pub enum Native {
    PrintLine,
    Print,
    ReadLine,
    RandomGenerate,
    IntToString,
    IntAdd,
    IntSub,
    IntMul,
    IntDiv,
    IntMod,
    IntSmallerThan,
    IntGreaterThan,
    IntEqualTo,
    FloatToString,
    FloatAdd,
    FloatSub,
    FloatMul,
    FloatDiv,
    FloatSmallerThan,
    FloatGreaterThan,
    StringToInt,
    BooleanToString,
}

/// A member of an object: a raw value or a nested object.
#[derive(Debug)]
pub enum Variable {
    Primitive(Primitive),
    YapkoObject(YapkoObject),
}

/// A raw value.
#[derive(Debug)]
pub enum Primitive {
    Int(i32),
    /// A 64-bit floating-point number, held as its IEEE 754 bit pattern.
    Float(u64),
    YapkoString(String),
    /// A function of the language: its body as tape bytes, and the list of
    /// (frame index, name) pairs against which it resolves free variables.
    YapkoFunction(Vec<u8>, Vec<(usize, String)>),
    Function(Native),
    Boolean(bool),
    Null,
}

/// One entry of a member table.
#[derive(Debug)]
pub struct Member {
    pub name: String,
    pub value: Variable,
}

/// A runtime entity: the name it is bound under, its type tag, and its
/// members. A primitive keeps its payload under the member `value`, and its
/// methods under their own names.
#[derive(Debug)]
pub struct YapkoObject {
    pub name: String,
    pub yapko_type: String,
    /// Reserved: no lookup consults it.
    pub parent: String,
    pub members: Vec<Member>,
}

/// The mathematical content of a [`Primitive`].
#[verifier::ext_equal]
pub enum PrimitiveView {
    Int(i32),
    Float(u64),
    YapkoString(Seq<char>),
    YapkoFunction(Seq<u8>, Seq<(usize, Seq<char>)>),
    Function(Native),
    Boolean(bool),
    Null,
}

/// The mathematical content of a [`Variable`].
#[verifier::ext_equal]
pub enum VariableView {
    Primitive(PrimitiveView),
    YapkoObject(ObjectView),
}

/// The mathematical content of a [`Member`].
#[verifier::ext_equal]
pub struct MemberView {
    pub name: Seq<char>,
    pub value: VariableView,
}

/// The mathematical content of a [`YapkoObject`].
#[verifier::ext_equal]
pub struct ObjectView {
    pub name: Seq<char>,
    pub yapko_type: Seq<char>,
    pub parent: Seq<char>,
    pub members: Seq<MemberView>,
}

/// The content of a capture list.
pub open spec fn captures_view(list: Seq<(usize, String)>) -> Seq<(usize, Seq<char>)> {
    Seq::new(list.len(), |i: int| (list[i].0, list[i].1@))
}

/// The mathematical content of a raw value.
pub open spec fn primitive_view(p: Primitive) -> PrimitiveView {
    match p {
        Primitive::Int(v) => PrimitiveView::Int(v),
        Primitive::Float(bits) => PrimitiveView::Float(bits),
        Primitive::YapkoString(s) => PrimitiveView::YapkoString(s@),
        Primitive::YapkoFunction(body, captures) => PrimitiveView::YapkoFunction(
            body@,
            captures_view(captures@),
        ),
        Primitive::Function(native) => PrimitiveView::Function(native),
        Primitive::Boolean(b) => PrimitiveView::Boolean(b),
        Primitive::Null => PrimitiveView::Null,
    }
}

/// The mathematical content of a member's value.
pub open spec fn variable_view(v: Variable) -> VariableView
    decreases v,
{
    match v {
        Variable::Primitive(p) => VariableView::Primitive(primitive_view(p)),
        Variable::YapkoObject(o) => VariableView::YapkoObject(object_view(o)),
    }
}

/// The mathematical content of an object and of all its members.
pub open spec fn object_view(o: YapkoObject) -> ObjectView
    decreases o,
{
    ObjectView {
        name: o.name@,
        yapko_type: o.yapko_type@,
        parent: o.parent@,
        members: Seq::new(
            o.members@.len(),
            |i: int|
                if 0 <= i < o.members@.len() {
                    MemberView {
                        name: o.members@[i].name@,
                        value: variable_view(o.members@[i].value),
                    }
                } else {
                    arbitrary()
                },
        ),
    }
}

/// The content of a member table.
pub open spec fn members_view(members: Seq<Member>) -> Seq<MemberView> {
    Seq::new(members.len(), |i: int| members[i]@)
}

/// The content of a run of objects, such as the operand stack.
pub open spec fn objects_view(objects: Seq<YapkoObject>) -> Seq<ObjectView> {
    Seq::new(objects.len(), |i: int| objects[i]@)
}

impl View for Primitive {
    type V = PrimitiveView;

    open spec fn view(&self) -> PrimitiveView {
        primitive_view(*self)
    }
}

impl View for Variable {
    type V = VariableView;

    open spec fn view(&self) -> VariableView {
        variable_view(*self)
    }
}

impl View for Member {
    type V = MemberView;

    open spec fn view(&self) -> MemberView {
        MemberView { name: self.name@, value: variable_view(self.value) }
    }
}

impl View for YapkoObject {
    type V = ObjectView;

    open spec fn view(&self) -> ObjectView {
        object_view(*self)
    }
}

/// An object's members are the views of its member entries.
pub proof fn lemma_object_members(o: YapkoObject)
    ensures
        o@.members == members_view(o.members@),
        o@.name == o.name@,
        o@.yapko_type == o.yapko_type@,
        o@.parent == o.parent@,
{
    assert(o@.members =~= members_view(o.members@));
}

/// Copies a capture list.
pub fn clone_captures(list: &Vec<(usize, String)>) -> (r: Vec<(usize, String)>)
    ensures
        captures_view(r@) == captures_view(list@),
{
    let mut out: Vec<(usize, String)> = Vec::new();
    let mut i: usize = 0;
    while i < list.len()
        invariant
            i <= list.len(),
            out@.len() == i,
            forall|k: int| 0 <= k < i ==> out@[k].0 == list@[k].0 && out@[k].1@ == list@[k].1@,
        decreases list.len() - i,
    {
        out.push((list[i].0, list[i].1.clone()));
        i = i + 1;
    }
    assert(captures_view(out@) =~= captures_view(list@));
    out
}

impl Clone for Primitive {
    /// A copy with the same content.
    fn clone(&self) -> (r: Self)
        ensures
            r@ == self@,
    {
        match self {
            Primitive::Int(v) => Primitive::Int(*v),
            Primitive::Float(bits) => Primitive::Float(*bits),
            Primitive::YapkoString(s) => Primitive::YapkoString(s.clone()),
            Primitive::YapkoFunction(body, captures) => Primitive::YapkoFunction(
                body.clone(),
                clone_captures(captures),
            ),
            Primitive::Function(native) => Primitive::Function(*native),
            Primitive::Boolean(b) => Primitive::Boolean(*b),
            Primitive::Null => Primitive::Null,
        }
    }
}

impl Clone for YapkoObject {
    /// A deep copy: the two objects share nothing.
    fn clone(&self) -> (r: Self)
        ensures
            r@ == self@,
        decreases self,
    {
        let mut members: Vec<Member> = Vec::new();
        let mut i: usize = 0;
        while i < self.members.len()
            invariant
                i <= self.members.len(),
                members@.len() == i,
                forall|k: int| 0 <= k < i ==> (#[trigger] members@[k])@ == self.members@[k]@,
            decreases self.members.len() - i,
        {
            let member = &self.members[i];
            let value = match &member.value {
                Variable::Primitive(p) => Variable::Primitive(p.clone()),
                Variable::YapkoObject(o) => Variable::YapkoObject(o.clone()),
            };
            members.push(Member { name: member.name.clone(), value });
            i = i + 1;
        }
        let r = YapkoObject {
            name: self.name.clone(),
            yapko_type: self.yapko_type.clone(),
            parent: self.parent.clone(),
            members,
        };
        proof {
            lemma_object_members(r);
            lemma_object_members(*self);
            assert(members_view(r.members@) =~= members_view(self.members@));
        }
        r
    }
}

impl Clone for Variable {
    /// A copy with the same content.
    fn clone(&self) -> (r: Self)
        ensures
            r@ == self@,
    {
        match self {
            Variable::Primitive(p) => Variable::Primitive(p.clone()),
            Variable::YapkoObject(o) => Variable::YapkoObject(o.clone()),
        }
    }
}

impl Clone for Member {
    /// A copy with the same content.
    fn clone(&self) -> (r: Self)
        ensures
            r@ == self@,
    {
        Member { name: self.name.clone(), value: self.value.clone() }
    }
}

/// The index of the first member at or after `from` that has the given name.
pub open spec fn member_position(members: Seq<MemberView>, name: Seq<char>, from: int) -> Option<
    int,
>
    decreases members.len() - from,
{
    if from < 0 || from >= members.len() {
        None
    } else if members[from].name == name {
        Some(from)
    } else {
        member_position(members, name, from + 1)
    }
}

/// The member of a table that has the given name: the first, where several do.
pub open spec fn find_member(members: Seq<MemberView>, name: Seq<char>) -> Option<VariableView> {
    match member_position(members, name, 0) {
        Some(i) => Some(members[i].value),
        None => None,
    }
}

/// A member table with the entry `name` set to `value`: an entry of that name
/// is replaced where it stands, a new name goes to the end.
pub open spec fn with_member(members: Seq<MemberView>, name: Seq<char>, value: VariableView) -> Seq<
    MemberView,
> {
    match member_position(members, name, 0) {
        Some(i) => members.update(i, MemberView { name, value }),
        None => members.push(MemberView { name, value }),
    }
}

/// Whether no two entries of a member table share a name.
pub open spec fn distinct_members(members: Seq<MemberView>) -> bool {
    forall|i: int, j: int|
        0 <= i < j < members.len() ==> (#[trigger] members[i]).name != (#[trigger] members[j]).name
}

/// A found position lies in the table, holds the name, and is the first to.
pub proof fn lemma_member_position(members: Seq<MemberView>, name: Seq<char>, from: int)
    requires
        0 <= from,
    ensures
        match member_position(members, name, from) {
            Some(i) => from <= i < members.len() && members[i].name == name && forall|k: int|
                from <= k < i ==> (#[trigger] members[k]).name != name,
            None => forall|k: int| from <= k < members.len() ==> (#[trigger] members[k]).name != name,
        },
    decreases members.len() - from,
{
    if from < members.len() && members[from].name != name {
        lemma_member_position(members, name, from + 1);
    }
}

/// Setting a member keeps the names of a table apart.
pub proof fn lemma_with_member_distinct(
    members: Seq<MemberView>,
    name: Seq<char>,
    value: VariableView,
)
    requires
        distinct_members(members),
    ensures
        distinct_members(with_member(members, name, value)),
{
    lemma_member_position(members, name, 0);
    let after = with_member(members, name, value);
    assert forall|i: int, j: int| 0 <= i < j < after.len() implies (#[trigger] after[i]).name != (
    #[trigger] after[j]).name by {
        if member_position(members, name, 0) is Some {
            assert(after[i].name == members[i].name);
            assert(after[j].name == members[j].name);
        } else if j == members.len() {
            assert(members[i].name != name);
        } else {
            assert(after[i] == members[i]);
            assert(after[j] == members[j]);
        }
    }
}

/// Tables that hold the same names at the same places hold a member at the
/// same place.
pub proof fn lemma_member_position_by_names(
    a: Seq<MemberView>,
    b: Seq<MemberView>,
    name: Seq<char>,
    from: int,
)
    requires
        a.len() == b.len(),
        forall|k: int| 0 <= k < a.len() ==> (#[trigger] a[k]).name == b[k].name,
    ensures
        member_position(a, name, from) == member_position(b, name, from),
    decreases a.len() - from,
{
    if 0 <= from < a.len() && a[from].name != name {
        lemma_member_position_by_names(a, b, name, from + 1);
    }
}

/// A member added at the end of a table is found where the table did not
/// hold its name, and changes the place of no other name.
pub proof fn lemma_member_position_push(
    members: Seq<MemberView>,
    member: MemberView,
    name: Seq<char>,
    from: int,
)
    requires
        0 <= from <= members.len(),
    ensures
        member_position(members.push(member), name, from) == (match member_position(
            members,
            name,
            from,
        ) {
            Some(i) => Some(i),
            None => if member.name == name {
                Some(members.len() as int)
            } else {
                None
            },
        }),
    decreases members.len() - from,
{
    let grown = members.push(member);
    if from < members.len() {
        assert(grown[from] == members[from]);
        if members[from].name != name {
            lemma_member_position_push(members, member, name, from + 1);
        }
    } else {
        assert(grown[from] == member);
        assert(member_position(grown, name, from + 1) is None);
    }
}

/// Setting a member is local to its name: the table then holds the value
/// under the name, and under every other name what it held.
pub proof fn lemma_with_member_get(
    members: Seq<MemberView>,
    name: Seq<char>,
    value: VariableView,
    other: Seq<char>,
)
    ensures
        find_member(with_member(members, name, value), name) == Some(value),
        other != name ==> find_member(with_member(members, name, value), other) == find_member(
            members,
            other,
        ),
{
    let after = with_member(members, name, value);
    lemma_member_position(members, name, 0);
    lemma_member_position(members, other, 0);
    match member_position(members, name, 0) {
        Some(i) => {
            lemma_member_position_by_names(members, after, name, 0);
            lemma_member_position_by_names(members, after, other, 0);
        },
        None => {
            lemma_member_position_push(members, MemberView { name, value }, name, 0);
            lemma_member_position_push(members, MemberView { name, value }, other, 0);
            if other != name && member_position(members, other, 0) is Some {
                assert(after[member_position(members, other, 0)->0] == members[member_position(
                    members,
                    other,
                    0,
                )->0]);
            }
        },
    }
}

/// The names of the members of the primitive objects differ from one
/// another.
pub proof fn lemma_member_names_differ()
    ensures
        "value"@ != "toString"@,
        "value"@ != "toInt"@,
        "toInt"@ != "toString"@,
        "value"@ != "add"@ && "value"@ != "sub"@ && "value"@ != "mul"@ && "value"@ != "div"@
            && "value"@ != "mod"@,
        "value"@ != "smallerThan"@ && "value"@ != "equalTo"@ && "value"@ != "greaterThan"@,
        "toString"@ != "add"@ && "toString"@ != "sub"@ && "toString"@ != "mul"@ && "toString"@
            != "div"@ && "toString"@ != "mod"@,
        "toString"@ != "smallerThan"@ && "toString"@ != "equalTo"@ && "toString"@
            != "greaterThan"@,
        "add"@ != "sub"@ && "add"@ != "mul"@ && "add"@ != "div"@ && "add"@ != "mod"@,
        "sub"@ != "mul"@ && "sub"@ != "div"@ && "sub"@ != "mod"@,
        "mul"@ != "div"@ && "mul"@ != "mod"@,
        "div"@ != "mod"@,
        "add"@ != "smallerThan"@ && "add"@ != "equalTo"@ && "add"@ != "greaterThan"@,
        "sub"@ != "smallerThan"@ && "sub"@ != "equalTo"@ && "sub"@ != "greaterThan"@,
        "mul"@ != "smallerThan"@ && "mul"@ != "equalTo"@ && "mul"@ != "greaterThan"@,
        "div"@ != "smallerThan"@ && "div"@ != "equalTo"@ && "div"@ != "greaterThan"@,
        "mod"@ != "smallerThan"@ && "mod"@ != "equalTo"@ && "mod"@ != "greaterThan"@,
        "smallerThan"@ != "equalTo"@ && "smallerThan"@ != "greaterThan"@ && "equalTo"@
            != "greaterThan"@,
{
    reveal_strlit("value");
    reveal_strlit("toString");
    reveal_strlit("toInt");
    reveal_strlit("add");
    reveal_strlit("sub");
    reveal_strlit("mul");
    reveal_strlit("div");
    reveal_strlit("mod");
    reveal_strlit("smallerThan");
    reveal_strlit("equalTo");
    reveal_strlit("greaterThan");
    assert("value"@.len() == 5 && "value"@[0] == 'v');
    assert("toInt"@.len() == 5 && "toInt"@[0] == 't');
    assert("toString"@.len() == 8);
    assert("add"@.len() == 3 && "add"@[0] == 'a');
    assert("sub"@.len() == 3 && "sub"@[0] == 's');
    assert("mul"@.len() == 3 && "mul"@[0] == 'm' && "mul"@[1] == 'u');
    assert("div"@.len() == 3 && "div"@[0] == 'd');
    assert("mod"@.len() == 3 && "mod"@[0] == 'm' && "mod"@[1] == 'o');
    assert("smallerThan"@.len() == 11 && "smallerThan"@[0] == 's');
    assert("equalTo"@.len() == 7);
    assert("greaterThan"@.len() == 11 && "greaterThan"@[0] == 'g');
}

/// No two members of a primitive object share a name.
pub proof fn lemma_primitive_members_distinct(name: Seq<char>)
    ensures
        forall|native: Native| distinct_members(#[trigger] function_object(name, native).members),
        forall|value: i32| distinct_members(#[trigger] int_object(name, value).members),
        forall|bits: u64| distinct_members(#[trigger] float_object(name, bits).members),
        forall|text: Seq<char>| distinct_members(#[trigger] string_object(name, text).members),
        forall|value: bool| distinct_members(#[trigger] boolean_object(name, value).members),
        distinct_members(null_object(name).members),
        forall|bytecode: Seq<u8>, used: Seq<(usize, Seq<char>)>, scope: usize|
            distinct_members(
                #[trigger] yapko_function_object(name, bytecode, used, scope).members,
            ),
{
    lemma_member_names_differ();
}

impl ObjectView {
    /// Whether no two members of the object share a name.
    pub open spec fn distinct(self) -> bool {
        distinct_members(self.members)
    }

    /// The member with the given name, if the object has one.
    pub open spec fn member(self, name: Seq<char>) -> Option<VariableView> {
        find_member(self.members, name)
    }

    /// The raw value that the object holds under the member `value`.
    pub open spec fn payload(self) -> Option<PrimitiveView> {
        match find_member(self.members, "value"@) {
            Some(VariableView::Primitive(p)) => Some(p),
            _ => None,
        }
    }
}

impl YapkoObject {
    /// The index of the first member called `name`.
    pub fn position(&self, name: &String) -> (r: Option<usize>)
        ensures
            self@.members == members_view(self.members@),
            r is Some <==> member_position(self@.members, name@, 0) is Some,
            r is Some ==> r->0 < self.members.len() && member_position(self@.members, name@, 0)
                == Some(r->0 as int),
    {
        proof {
            lemma_object_members(*self);
        }
        let mut i: usize = 0;
        while i < self.members.len()
            invariant
                i <= self.members.len(),
                self@.members == members_view(self.members@),
                member_position(self@.members, name@, i as int) == member_position(
                    self@.members,
                    name@,
                    0,
                ),
            decreases self.members.len() - i,
        {
            if self.members[i].name == *name {
                return Some(i);
            }
            i = i + 1;
        }
        None
    }

    /// Whether the object has a member called `name`.
    pub fn contains(&self, name: &str) -> (r: bool)
        ensures
            r == self@.member(name@).is_some(),
    {
        let key = String::from_str(name);
        self.position(&key).is_some()
    }

    /// The member called `name`, or `None` where the object has none.
    pub fn get(&self, name: &str) -> (r: Option<&Variable>)
        ensures
            match self@.member(name@) {
                Some(v) => r is Some && r->0@ == v,
                None => r is None,
            },
    {
        let key = String::from_str(name);
        proof {
            lemma_object_members(*self);
        }
        match self.position(&key) {
            Some(i) => Some(&self.members[i].value),
            None => None,
        }
    }

    /// The raw value under the member `value`, or `None` where the object
    /// holds no raw value there.
    pub fn payload(&self) -> (r: Option<&Primitive>)
        ensures
            match self@.payload() {
                Some(p) => r is Some && r->0@ == p,
                None => r is None,
            },
    {
        match self.get("value") {
            Some(Variable::Primitive(p)) => Some(p),
            _ => None,
        }
    }

    /// Sets the member `name` to `value`, replacing an entry of that name or
    /// adding one.
    pub fn insert(&mut self, name: String, value: Variable)
        ensures
            final(self)@ == (ObjectView {
                members: with_member(old(self)@.members, name@, value@),
                ..old(self)@
            }),
            old(self)@.distinct() ==> final(self)@.distinct(),
    {
        proof {
            lemma_object_members(*self);
            if self@.distinct() {
                lemma_with_member_distinct(self@.members, name@, value@);
            }
        }
        let found = self.position(&name);
        match found {
            Some(i) => {
                self.members.set(i, Member { name, value });
            },
            None => {
                self.members.push(Member { name, value });
            },
        }
        proof {
            lemma_object_members(*self);
            assert(members_view(self.members@) =~= with_member(
                old(self)@.members,
                name@,
                value@,
            ));
        }
    }
}

/// The entry of a member table that holds a raw value.
pub open spec fn primitive_member(name: Seq<char>, p: PrimitiveView) -> MemberView {
    MemberView { name, value: VariableView::Primitive(p) }
}

/// The object that wraps a native function.
pub open spec fn function_object(name: Seq<char>, native: Native) -> ObjectView {
    ObjectView {
        name,
        yapko_type: "Function"@,
        parent: Seq::empty(),
        members: seq![primitive_member("value"@, PrimitiveView::Function(native))],
    }
}

/// The entry of a member table that holds a native method under its name.
pub open spec fn method_member(name: Seq<char>, native: Native) -> MemberView {
    MemberView { name, value: VariableView::YapkoObject(function_object(name, native)) }
}

/// The object of an integer.
pub open spec fn int_object(name: Seq<char>, value: i32) -> ObjectView {
    ObjectView {
        name,
        yapko_type: "Int"@,
        parent: Seq::empty(),
        members: seq![
            primitive_member("value"@, PrimitiveView::Int(value)),
            method_member("toString"@, Native::IntToString),
            method_member("add"@, Native::IntAdd),
            method_member("sub"@, Native::IntSub),
            method_member("mul"@, Native::IntMul),
            method_member("div"@, Native::IntDiv),
            method_member("mod"@, Native::IntMod),
            method_member("smallerThan"@, Native::IntSmallerThan),
            method_member("equalTo"@, Native::IntEqualTo),
            method_member("greaterThan"@, Native::IntGreaterThan),
        ],
    }
}

/// The object of a floating-point number with the given bit pattern.
pub open spec fn float_object(name: Seq<char>, bits: u64) -> ObjectView {
    ObjectView {
        name,
        yapko_type: "Float"@,
        parent: Seq::empty(),
        members: seq![
            primitive_member("value"@, PrimitiveView::Float(bits)),
            method_member("toString"@, Native::FloatToString),
            method_member("add"@, Native::FloatAdd),
            method_member("sub"@, Native::FloatSub),
            method_member("mul"@, Native::FloatMul),
            method_member("div"@, Native::FloatDiv),
            method_member("smallerThan"@, Native::FloatSmallerThan),
            method_member("greaterThan"@, Native::FloatGreaterThan),
        ],
    }
}

/// The object of a string.
pub open spec fn string_object(name: Seq<char>, value: Seq<char>) -> ObjectView {
    ObjectView {
        name,
        yapko_type: "String"@,
        parent: Seq::empty(),
        members: seq![
            primitive_member("value"@, PrimitiveView::YapkoString(value)),
            method_member("toInt"@, Native::StringToInt),
        ],
    }
}

/// The object of a boolean.
pub open spec fn boolean_object(name: Seq<char>, value: bool) -> ObjectView {
    ObjectView {
        name,
        yapko_type: "Boolean"@,
        parent: Seq::empty(),
        members: seq![
            primitive_member("value"@, PrimitiveView::Boolean(value)),
            method_member("toString"@, Native::BooleanToString),
        ],
    }
}

/// The object of a function of the language, defined in frame `scope`: the
/// function's own binding closes its capture list.
pub open spec fn yapko_function_object(
    name: Seq<char>,
    bytecode: Seq<u8>,
    used_variables: Seq<(usize, Seq<char>)>,
    scope: usize,
) -> ObjectView {
    ObjectView {
        name,
        yapko_type: "YapkoFunction"@,
        parent: Seq::empty(),
        members: seq![
            primitive_member(
                "value"@,
                PrimitiveView::YapkoFunction(bytecode, used_variables.push((scope, name))),
            ),
        ],
    }
}

/// The object that a fresh declaration binds.
pub open spec fn null_object(name: Seq<char>) -> ObjectView {
    ObjectView {
        name,
        yapko_type: "Null"@,
        parent: Seq::empty(),
        members: seq![primitive_member("value"@, PrimitiveView::Null)],
    }
}

/// Makes the member that holds a raw value as the payload.
fn value_member(p: Primitive) -> (m: Member)
    ensures
        m@ == primitive_member("value"@, p@),
{
    Member { name: String::from_str("value"), value: Variable::Primitive(p) }
}

/// Makes the member that holds a native method under its name.
fn method(name: &str, native: Native) -> (m: Member)
    ensures
        m@ == method_member(name@, native),
{
    Member {
        name: String::from_str(name),
        value: Variable::YapkoObject(generate_function(String::from_str(name), native)),
    }
}

/// Builds the object that wraps a native function.
pub fn generate_function(name: String, function: Native) -> (r: YapkoObject)
    ensures
        r@ == function_object(name@, function),
        r@.distinct(),
{
    proof {
        lemma_primitive_members_distinct(name@);
    }
    let mut members: Vec<Member> = Vec::new();
    members.push(value_member(Primitive::Function(function)));
    let r = YapkoObject {
        name,
        parent: String::new(),
        yapko_type: String::from_str("Function"),
        members,
    };
    proof {
        lemma_object_members(r);
        assert(r@.members =~= function_object(name@, function).members);
    }
    r
}

/// Builds the object of an integer.
pub fn generate_int(name: String, value: i32) -> (r: YapkoObject)
    ensures
        r@ == int_object(name@, value),
        r@.distinct(),
{
    proof {
        lemma_primitive_members_distinct(name@);
    }
    let mut members: Vec<Member> = Vec::new();
    members.push(value_member(Primitive::Int(value)));
    members.push(method("toString", Native::IntToString));
    members.push(method("add", Native::IntAdd));
    members.push(method("sub", Native::IntSub));
    members.push(method("mul", Native::IntMul));
    members.push(method("div", Native::IntDiv));
    members.push(method("mod", Native::IntMod));
    members.push(method("smallerThan", Native::IntSmallerThan));
    members.push(method("equalTo", Native::IntEqualTo));
    members.push(method("greaterThan", Native::IntGreaterThan));
    let r = YapkoObject {
        name,
        parent: String::new(),
        yapko_type: String::from_str("Int"),
        members,
    };
    proof {
        lemma_object_members(r);
        assert(r@.members =~= int_object(name@, value).members);
    }
    r
}

/// Builds the object of a floating-point number from its IEEE 754 bit
/// pattern.
pub fn generate_float(name: String, value: u64) -> (r: YapkoObject)
    ensures
        r@ == float_object(name@, value),
        r@.distinct(),
{
    proof {
        lemma_primitive_members_distinct(name@);
    }
    let mut members: Vec<Member> = Vec::new();
    members.push(value_member(Primitive::Float(value)));
    members.push(method("toString", Native::FloatToString));
    members.push(method("add", Native::FloatAdd));
    members.push(method("sub", Native::FloatSub));
    members.push(method("mul", Native::FloatMul));
    members.push(method("div", Native::FloatDiv));
    members.push(method("smallerThan", Native::FloatSmallerThan));
    members.push(method("greaterThan", Native::FloatGreaterThan));
    let r = YapkoObject {
        name,
        parent: String::new(),
        yapko_type: String::from_str("Float"),
        members,
    };
    proof {
        lemma_object_members(r);
        assert(r@.members =~= float_object(name@, value).members);
    }
    r
}

/// Builds the object of a string.
pub fn generate_string(name: String, value: String) -> (r: YapkoObject)
    ensures
        r@ == string_object(name@, value@),
        r@.distinct(),
{
    proof {
        lemma_primitive_members_distinct(name@);
    }
    let mut members: Vec<Member> = Vec::new();
    members.push(value_member(Primitive::YapkoString(value)));
    members.push(method("toInt", Native::StringToInt));
    let r = YapkoObject {
        name,
        parent: String::new(),
        yapko_type: String::from_str("String"),
        members,
    };
    proof {
        lemma_object_members(r);
        assert(r@.members =~= string_object(name@, value@).members);
    }
    r
}

/// Builds the object of a boolean.
pub fn generate_boolean(name: String, value: bool) -> (r: YapkoObject)
    ensures
        r@ == boolean_object(name@, value),
        r@.distinct(),
{
    proof {
        lemma_primitive_members_distinct(name@);
    }
    let mut members: Vec<Member> = Vec::new();
    members.push(value_member(Primitive::Boolean(value)));
    members.push(method("toString", Native::BooleanToString));
    let r = YapkoObject {
        name,
        parent: String::new(),
        yapko_type: String::from_str("Boolean"),
        members,
    };
    proof {
        lemma_object_members(r);
        assert(r@.members =~= boolean_object(name@, value).members);
    }
    r
}

/// Builds the object of a function of the language. `used_variables` is the
/// list captured where the function was defined; the function's own binding,
/// in frame `scope`, is added at its end.
pub fn generate_yapko_function(
    name: String,
    bytecode: Vec<u8>,
    used_variables: Vec<(usize, String)>,
    scope: usize,
) -> (r: YapkoObject)
    ensures
        r@ == yapko_function_object(name@, bytecode@, captures_view(used_variables@), scope),
        r@.distinct(),
{
    proof {
        lemma_primitive_members_distinct(name@);
    }
    let mut used_variables = used_variables;
    let ghost before = used_variables@;
    used_variables.push((scope, name.clone()));
    assert(captures_view(used_variables@) =~= captures_view(before).push((scope, name@)));
    let mut members: Vec<Member> = Vec::new();
    members.push(value_member(Primitive::YapkoFunction(bytecode, used_variables)));
    let r = YapkoObject {
        name,
        parent: String::new(),
        yapko_type: String::from_str("YapkoFunction"),
        members,
    };
    proof {
        lemma_object_members(r);
        assert(r@.members =~= yapko_function_object(
            name@,
            bytecode@,
            captures_view(before),
            scope,
        ).members);
    }
    r
}

/// Builds the object that a fresh declaration binds.
pub fn generate_null(name: String) -> (r: YapkoObject)
    ensures
        r@ == null_object(name@),
        r@.distinct(),
{
    proof {
        lemma_primitive_members_distinct(name@);
    }
    let mut members: Vec<Member> = Vec::new();
    members.push(value_member(Primitive::Null));
    let r = YapkoObject {
        name,
        parent: String::new(),
        yapko_type: String::from_str("Null"),
        members,
    };
    proof {
        lemma_object_members(r);
        assert(r@.members =~= null_object(name@).members);
    }
    r
}

} // verus!
