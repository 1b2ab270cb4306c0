//! A `String` newtype, convertible from the common string shapes and
//! comparable against `String` and `&str` as well as against itself.
//!
//! Comparisons go through a verified character-wise routine whose
//! contract is the lexicographic order on the character sequences.

use core::cmp::Ordering;
use vstd::prelude::*;
use vstd::string::StrSliceExecFns;

verus! {

/// Lexicographic comparison of two character sequences, by code point.
pub open spec fn spec_str_cmp(a: Seq<char>, b: Seq<char>) -> Ordering
    decreases a.len(),
{
    if a.len() == 0 && b.len() == 0 {
        Ordering::Equal
    } else if a.len() == 0 {
        Ordering::Less
    } else if b.len() == 0 {
        Ordering::Greater
    } else if a[0] == b[0] {
        spec_str_cmp(a.drop_first(), b.drop_first())
    } else if (a[0] as u32) < (b[0] as u32) {
        Ordering::Less
    } else {
        Ordering::Greater
    }
}

/// Two sequences compare as equal exactly when they are equal.
proof fn lemma_str_cmp_equal(a: Seq<char>, b: Seq<char>)
    ensures
        (spec_str_cmp(a, b) == Ordering::Equal) <==> (a == b),
    decreases a.len(),
{
    if a.len() == 0 && b.len() == 0 {
        assert(a =~= b);
    } else if a.len() == 0 || b.len() == 0 {
        if a == b {
            assert(a.len() == b.len());
        }
    } else {
        lemma_str_cmp_equal(a.drop_first(), b.drop_first());
        if spec_str_cmp(a, b) == Ordering::Equal {
            assert(a[0] == b[0]);
            assert(a.drop_first() == b.drop_first());
            assert(a.len() == a.drop_first().len() + 1);
            assert forall|i: int| 0 <= i < a.len() implies a[i] == b[i] by {
                if i > 0 {
                    assert(a.drop_first()[i - 1] == b.drop_first()[i - 1]);
                }
            }
            assert(a =~= b);
        }
        if a == b {
            assert(a.drop_first() =~= b.drop_first());
        }
    }
}

/// Compares two strings character by character; the result is the
/// lexicographic order of their character sequences.
fn str_compare(x: &str, y: &str) -> (r: Ordering)
    ensures
        r == spec_str_cmp(x@, y@),
{
    let xl = x.unicode_len();
    let yl = y.unicode_len();
    let mut i: usize = 0;
    proof {
        assert(x@.skip(0) =~= x@);
        assert(y@.skip(0) =~= y@);
    }
    while i < xl && i < yl
        invariant
            i <= xl,
            i <= yl,
            xl == x@.len(),
            yl == y@.len(),
            spec_str_cmp(x@, y@) == spec_str_cmp(x@.skip(i as int), y@.skip(i as int)),
        decreases xl - i,
    {
        let cx = x.get_char(i);
        let cy = y.get_char(i);
        proof {
            assert(x@.skip(i as int)[0] == x@[i as int]);
            assert(y@.skip(i as int)[0] == y@[i as int]);
            assert(x@.skip(i as int).drop_first() =~= x@.skip(i + 1));
            assert(y@.skip(i as int).drop_first() =~= y@.skip(i + 1));
        }
        if cx != cy {
            if (cx as u32) < (cy as u32) {
                return Ordering::Less;
            }
            return Ordering::Greater;
        }
        i = i + 1;
    }
    proof {
        assert(x@.skip(i as int).len() == xl - i);
        assert(y@.skip(i as int).len() == yl - i);
    }
    if xl == yl {
        Ordering::Equal
    } else if xl < yl {
        Ordering::Less
    } else {
        Ordering::Greater
    }
}

/// A `String` newtype.
#[derive(Clone, Debug, Default, Eq, Hash, Ord)]
pub struct MyString(String);

impl View for MyString {
    type V = Seq<char>;

    closed spec fn view(&self) -> Seq<char> {
        self.0@
    }
}

impl From<String> for MyString {
    fn from(s: String) -> (r: Self) {
        MyString(s)
    }
}

impl vstd::std_specs::convert::FromSpecImpl<String> for MyString {
    open spec fn obeys_from_spec() -> bool {
        true
    }

    closed spec fn from_spec(s: String) -> Self {
        MyString(s)
    }
}

impl From<&String> for MyString {
    fn from(s: &String) -> (r: Self)
        ensures
            r@ == s@,
    {
        MyString(s.clone())
    }
}

impl vstd::std_specs::convert::FromSpecImpl<&String> for MyString {
    open spec fn obeys_from_spec() -> bool {
        false
    }

    closed spec fn from_spec(s: &String) -> Self {
        MyString(*s)
    }
}

impl From<&str> for MyString {
    fn from(s: &str) -> (r: Self)
        ensures
            r@ == s@,
    {
        MyString(s.to_owned())
    }
}

impl vstd::std_specs::convert::FromSpecImpl<&str> for MyString {
    open spec fn obeys_from_spec() -> bool {
        false
    }

    closed spec fn from_spec(s: &str) -> Self {
        arbitrary()
    }
}

impl From<&&str> for MyString {
    fn from(s: &&str) -> (r: Self)
        ensures
            r@ == s@,
    {
        MyString((*s).to_owned())
    }
}

impl vstd::std_specs::convert::FromSpecImpl<&&str> for MyString {
    open spec fn obeys_from_spec() -> bool {
        false
    }

    closed spec fn from_spec(s: &&str) -> Self {
        arbitrary()
    }
}

impl PartialEq<MyString> for MyString {
    fn eq(&self, other: &MyString) -> (r: bool) {
        proof {
            lemma_str_cmp_equal(self@, other@);
        }
        matches!(str_compare(self.0.as_str(), other.0.as_str()), Ordering::Equal)
    }
}

impl vstd::std_specs::cmp::PartialEqSpecImpl<MyString> for MyString {
    open spec fn obeys_eq_spec() -> bool {
        true
    }

    open spec fn eq_spec(&self, other: &MyString) -> bool {
        self@ == other@
    }
}

impl PartialEq<String> for MyString {
    fn eq(&self, other: &String) -> (r: bool) {
        proof {
            lemma_str_cmp_equal(self@, other@);
        }
        matches!(str_compare(self.0.as_str(), other.as_str()), Ordering::Equal)
    }
}

impl vstd::std_specs::cmp::PartialEqSpecImpl<String> for MyString {
    open spec fn obeys_eq_spec() -> bool {
        true
    }

    open spec fn eq_spec(&self, other: &String) -> bool {
        self@ == other@
    }
}

impl PartialEq<&str> for MyString {
    fn eq(&self, other: &&str) -> (r: bool) {
        proof {
            lemma_str_cmp_equal(self@, other@);
        }
        matches!(str_compare(self.0.as_str(), *other), Ordering::Equal)
    }
}

impl vstd::std_specs::cmp::PartialEqSpecImpl<&str> for MyString {
    open spec fn obeys_eq_spec() -> bool {
        true
    }

    open spec fn eq_spec(&self, other: &&str) -> bool {
        self@ == other@
    }
}

impl PartialOrd<MyString> for MyString {
    fn partial_cmp(&self, other: &MyString) -> (r: Option<Ordering>) {
        Some(str_compare(self.0.as_str(), other.0.as_str()))
    }
}

impl vstd::std_specs::cmp::PartialOrdSpecImpl<MyString> for MyString {
    open spec fn obeys_partial_cmp_spec() -> bool {
        true
    }

    open spec fn partial_cmp_spec(&self, other: &MyString) -> Option<Ordering> {
        Some(spec_str_cmp(self@, other@))
    }
}

impl PartialOrd<String> for MyString {
    fn partial_cmp(&self, other: &String) -> (r: Option<Ordering>) {
        Some(str_compare(self.0.as_str(), other.as_str()))
    }
}

impl vstd::std_specs::cmp::PartialOrdSpecImpl<String> for MyString {
    open spec fn obeys_partial_cmp_spec() -> bool {
        true
    }

    open spec fn partial_cmp_spec(&self, other: &String) -> Option<Ordering> {
        Some(spec_str_cmp(self@, other@))
    }
}

impl PartialOrd<&str> for MyString {
    fn partial_cmp(&self, other: &&str) -> (r: Option<Ordering>) {
        Some(str_compare(self.0.as_str(), *other))
    }
}

impl vstd::std_specs::cmp::PartialOrdSpecImpl<&str> for MyString {
    open spec fn obeys_partial_cmp_spec() -> bool {
        true
    }

    open spec fn partial_cmp_spec(&self, other: &&str) -> Option<Ordering> {
        Some(spec_str_cmp(self@, other@))
    }
}

} // verus!
