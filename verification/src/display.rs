//! Text helpers of the AST printer: command-line flags, attribute values
//! and truncated previews.

use vstd::prelude::*;
use crate::ast::JsxAttrValue;
use crate::text::{chars_of, push_all, slice_chars, string_of};

verus! {

/// `s` cut to `max` characters with `...` appended when longer.
pub open spec fn truncated(s: Seq<char>, max: nat) -> Seq<char> {
    if s.len() <= max {
        s
    } else {
        s.take(max as int) + "..."@
    }
}

pub fn trunc(s: &str, max: usize) -> (r: String)
    ensures
        r@ == truncated(s@, max as nat),
{
    let v = chars_of(s);
    if v.len() <= max {
        return string_of(&v);
    }
    let mut out = slice_chars(&v, 0, max);
    push_all(&mut out, &chars_of("..."));
    string_of(&out)
}

/// How an attribute value is shown: strings quoted, expressions in
/// braces (cut to 40 characters), `true` for a bare attribute, spreads as
/// `{...e}`.
pub open spec fn attr_value_text(v: JsxAttrValue) -> Seq<char> {
    match v {
        JsxAttrValue::String(s) => "\""@ + s@ + "\""@,
        JsxAttrValue::Expression(e) => "{"@ + truncated(e@, 40) + "}"@,
        JsxAttrValue::Boolean => "true"@,
        JsxAttrValue::Spread(e) => "{..."@ + truncated(e@, 40) + "}"@,
    }
}

fn cat3(a: &str, b: &str, c: &str) -> (r: String)
    ensures
        r@ == a@ + b@ + c@,
{
    let mut v = chars_of(a);
    push_all(&mut v, &chars_of(b));
    push_all(&mut v, &chars_of(c));
    string_of(&v)
}

pub fn fmt_attr_value(v: &JsxAttrValue) -> (r: String)
    ensures
        r@ == attr_value_text(*v),
{
    match v {
        JsxAttrValue::String(s) => cat3("\"", s.as_str(), "\""),
        JsxAttrValue::Expression(e) => cat3("{", trunc(e.as_str(), 40).as_str(), "}"),
        JsxAttrValue::Boolean => string_of(&chars_of("true")),
        JsxAttrValue::Spread(e) => cat3("{...", trunc(e.as_str(), 40).as_str(), "}"),
    }
}

/// `args` without the entries equal to `name`.
pub open spec fn without(args: Seq<String>, name: Seq<char>) -> Seq<String>
    decreases args.len(),
{
    if args.len() == 0 {
        args
    } else if args.last()@ == name {
        without(args.drop_last(), name)
    } else {
        without(args.drop_last(), name).push(args.last())
    }
}

/// Taking a flag out leaves no copy of it, and keeps every other argument.
pub proof fn law_flag_taken_out(args: Seq<String>, name: Seq<char>)
    ensures
        forall|i: int| 0 <= i < without(args, name).len() ==> (#[trigger] without(args, name)[i])@ != name,
        forall|i: int| 0 <= i < args.len() && args[i]@ != name ==> without(args, name).contains(#[trigger] args[i]),
    decreases args.len(),
{
    if args.len() > 0 {
        law_flag_taken_out(args.drop_last(), name);
        let rest = without(args.drop_last(), name);
        assert forall|i: int| 0 <= i < args.len() && args[i]@ != name implies without(args, name).contains(
            #[trigger] args[i],
        ) by {
            if i < args.len() - 1 {
                assert(args.drop_last()[i] == args[i]);
                let j = choose|j: int| 0 <= j < rest.len() && rest[j] == args[i];
                if args.last()@ != name {
                    assert(without(args, name)[j] == args[i]);
                }
            } else {
                assert(without(args, name).last() == args[i]);
            }
        }
    }
}

/// Whether the flag `name` was given; every occurrence is removed.
pub fn take_flag(args: &mut Vec<String>, name: &str) -> (had: bool)
    ensures
        had == exists|i: int| 0 <= i < old(args)@.len() && #[trigger] old(args)@[i]@ == name@,
        final(args)@ == without(old(args)@, name@),
{
    let target = string_of(&chars_of(name));
    let mut taken: Vec<String> = Vec::new();
    std::mem::swap(&mut taken, args);
    let ghost src = taken@;
    let mut had = false;
    let mut kept: Vec<String> = Vec::new();
    for a in it: taken.into_iter()
        invariant
            it.seq() == src,
            target@ == name@,
            had == exists|i: int| 0 <= i < it.index() && #[trigger] src[i]@ == name@,
            kept@ == without(src.take(it.index() as int), name@),
    {
        let ghost k = it.index() as int;
        proof {
            assert(src.take(k + 1).drop_last() =~= src.take(k));
            assert(src.take(k + 1).last() == a);
        }
        if a == target {
            had = true;
        } else {
            kept.push(a);
        }
    }
    assert(src.take(src.len() as int) =~= src);
    *args = kept;
    had
}

} // verus!
