use vstd::prelude::*;

verus! {

pub open spec fn is_digit(c: char) -> bool {
    '0' <= c <= '9'
}

/// A decimal integer: an optional minus sign followed by at least one digit.
pub open spec fn is_integer_text(v: Seq<char>) -> bool {
    let start: int = if v.len() > 0 && v[0] == '-' {
        1
    } else {
        0
    };
    &&& v.len() > start
    &&& forall|i: int| start <= i < v.len() ==> is_digit(#[trigger] v[i])
}

/// A boolean is written `true` or `false`.
pub open spec fn is_boolean_text(v: Seq<char>) -> bool {
    v == "true"@ || v == "false"@
}

/// Whether `value` is representable under the value type named `value_type`. Integers and
/// booleans are checked; every other type (string, secret, ...) takes any text.
pub open spec fn conforms(value_type: Seq<char>, value: Seq<char>) -> bool {
    if value_type == "integer"@ {
        is_integer_text(value)
    } else if value_type == "boolean"@ {
        is_boolean_text(value)
    } else {
        true
    }
}

fn integer_text(v: &String) -> (r: bool)
    ensures
        r == is_integer_text(v@),
{
    let s = v.as_str();
    let n = s.unicode_len();
    if n == 0 {
        return false;
    }
    let start: usize = if s.get_char(0) == '-' {
        1
    } else {
        0
    };
    if n <= start {
        return false;
    }
    let mut i: usize = start;
    while i < n
        invariant
            s@ == v@,
            n == v@.len(),
            start <= i <= n,
            start == (if v@[0] == '-' {
                1usize
            } else {
                0usize
            }),
            forall|j: int| start <= j < i ==> is_digit(#[trigger] v@[j]),
        decreases n - i,
    {
        let c = s.get_char(i);
        if !('0' <= c && c <= '9') {
            return false;
        }
        i = i + 1;
    }
    true
}

/// Checks `value` against the rules of the value type named `value_type`.
pub fn value_conforms(value_type: &String, value: &String) -> (r: bool)
    ensures
        r == conforms(value_type@, value@),
{
    let integer = String::from_str("integer");
    let boolean = String::from_str("boolean");
    if *value_type == integer {
        integer_text(value)
    } else if *value_type == boolean {
        let t = String::from_str("true");
        let f = String::from_str("false");
        *value == t || *value == f
    } else {
        true
    }
}

} // verus!
