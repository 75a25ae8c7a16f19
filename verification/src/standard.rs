//! The standard library: the bindings that frame 0 holds when a program
//! starts.

use crate::scope::{Binding, BindingView, Frame};
use crate::yapko::{
    boolean_object, float_object, function_object, generate_boolean, generate_float,
    generate_function, generate_int, generate_string, int_object, lemma_object_members,
    method_member, string_object, Member, Native, ObjectView, Variable, YapkoObject,
};
use vstd::prelude::*;

verus! {

/// An object as a class template: the same object under the type tag
/// `class`.
pub open spec fn as_class(o: ObjectView) -> ObjectView {
    ObjectView { yapko_type: "class"@, ..o }
}

/// A namespace: a class template with one built-in method.
pub open spec fn namespace_object(name: Seq<char>, method: Seq<char>, native: Native) -> ObjectView {
    ObjectView {
        name,
        yapko_type: "class"@,
        parent: Seq::empty(),
        members: seq![method_member(method, native)],
    }
}

/// An object bound under its own name.
pub open spec fn own_binding(o: ObjectView) -> BindingView {
    BindingView { name: o.name, value: o }
}

/// The bindings of the standard library: the two printing functions, the
/// namespaces `IO` and `Random`, and a class template for each primitive
/// kind.
pub open spec fn standard_frame() -> Seq<BindingView> {
    seq![
        own_binding(function_object("printLine"@, Native::PrintLine)),
        own_binding(function_object("print"@, Native::Print)),
        own_binding(namespace_object("IO"@, "readLine"@, Native::ReadLine)),
        own_binding(namespace_object("Random"@, "generate"@, Native::RandomGenerate)),
        own_binding(as_class(int_object("Int"@, 0))),
        own_binding(as_class(float_object("Float"@, 0))),
        own_binding(as_class(string_object("String"@, Seq::empty()))),
        own_binding(as_class(boolean_object("Boolean"@, false))),
    ]
}

/// No two bindings of the standard library share a name.
pub proof fn lemma_standard_names_differ()
    ensures
        crate::scope::distinct_names(standard_frame()),
{
    reveal_strlit("printLine");
    reveal_strlit("print");
    reveal_strlit("IO");
    reveal_strlit("Random");
    reveal_strlit("Int");
    reveal_strlit("Float");
    reveal_strlit("String");
    reveal_strlit("Boolean");
    assert("printLine"@.len() == 9);
    assert("print"@.len() == 5 && "print"@[0] == 'p');
    assert("IO"@.len() == 2);
    assert("Random"@.len() == 6 && "Random"@[0] == 'R');
    assert("Int"@.len() == 3);
    assert("Float"@.len() == 5 && "Float"@[0] == 'F');
    assert("String"@.len() == 6 && "String"@[0] == 'S');
    assert("Boolean"@.len() == 7);
    let frame = standard_frame();
    assert(frame[0].name == "printLine"@);
    assert(frame[1].name == "print"@);
    assert(frame[2].name == "IO"@);
    assert(frame[3].name == "Random"@);
    assert(frame[4].name == "Int"@);
    assert(frame[5].name == "Float"@);
    assert(frame[6].name == "String"@);
    assert(frame[7].name == "Boolean"@);
}

/// Binds an object under its own name at the end of a frame.
fn bind_own(frame: &mut Frame, name: &str, value: YapkoObject)
    requires
        value@.name == name@,
    ensures
        final(frame)@ == old(frame)@.push(own_binding(value@)),
{
    frame.bindings.push(Binding { name: String::from_str(name), value });
    assert(frame@ =~= old(frame)@.push(own_binding(value@)));
}

/// Builds a namespace with one built-in method.
fn make_namespace(name: &str, method: &str, native: Native) -> (r: YapkoObject)
    ensures
        r@ == namespace_object(name@, method@, native),
{
    let mut members: Vec<Member> = Vec::new();
    members.push(
        Member {
            name: String::from_str(method),
            value: Variable::YapkoObject(generate_function(String::from_str(method), native)),
        },
    );
    let r = YapkoObject {
        name: String::from_str(name),
        yapko_type: String::from_str("class"),
        parent: String::new(),
        members,
    };
    proof {
        lemma_object_members(r);
        assert(r@.members =~= namespace_object(name@, method@, native).members);
    }
    r
}

/// Turns an object into a class template.
fn make_class(object: YapkoObject) -> (r: YapkoObject)
    ensures
        r@ == as_class(object@),
{
    let mut r = object;
    proof {
        lemma_object_members(r);
    }
    r.yapko_type = String::from_str("class");
    proof {
        lemma_object_members(r);
        assert(r@ =~= as_class(object@));
    }
    r
}

/// Builds the standard library.
pub fn generate_standard() -> (r: Frame)
    ensures
        r@ == standard_frame(),
        crate::scope::distinct_names(r@),
{
    proof {
        lemma_standard_names_differ();
    }
    let mut frame = Frame::new();
    bind_own(
        &mut frame,
        "printLine",
        generate_function(String::from_str("printLine"), Native::PrintLine),
    );
    bind_own(&mut frame, "print", generate_function(String::from_str("print"), Native::Print));
    bind_own(&mut frame, "IO", make_namespace("IO", "readLine", Native::ReadLine));
    bind_own(&mut frame, "Random", make_namespace("Random", "generate", Native::RandomGenerate));
    bind_own(&mut frame, "Int", make_class(generate_int(String::from_str("Int"), 0)));
    bind_own(&mut frame, "Float", make_class(generate_float(String::from_str("Float"), 0)));
    bind_own(
        &mut frame,
        "String",
        make_class(generate_string(String::from_str("String"), String::new())),
    );
    bind_own(
        &mut frame,
        "Boolean",
        make_class(generate_boolean(String::from_str("Boolean"), false)),
    );
    assert(frame@ =~= standard_frame());
    frame
}

} // verus!
