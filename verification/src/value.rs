//! Values of PSL, and the named entries of a container.
use vstd::prelude::*;
use crate::semantics::{NumAnswer, NumQuery};
use crate::text::str_eq;

verus! {

/// A value of PSL. A number is held as the 64-bit pattern of an IEEE-754
/// double; a container as a list of named entries, each name at most once.
#[derive(Debug, PartialEq)]
pub enum Value {
    Text(String),
    Number(u64),
    Flag(bool),
    Item,
    Container(Vec<(String, Value)>),
    Null,
}

/// The mathematical value of a `Value`.
pub enum ValueV {
    Text(Seq<char>),
    Number(u64),
    Flag(bool),
    Item,
    Container(Seq<(Seq<char>, ValueV)>),
    Null,
}

/// The values of named entries.
pub open spec fn entries_model(s: Seq<(String, Value)>) -> Seq<(Seq<char>, ValueV)>
    decreases s,
{
    if s.len() == 0 {
        Seq::empty()
    } else {
        proof {
            assert(decreases_to!(s => s.drop_last())) by {
                assert(s.drop_last() =~= s.subrange(0, s.len() - 1));
            }
        }
        entries_model(s.drop_last()).push((s.last().0@, s.last().1.model()))
    }
}

impl Value {
    /// The mathematical value of the value.
    pub open spec fn model(self) -> ValueV
        decreases self,
    {
        match self {
            Value::Text(s) => ValueV::Text(s@),
            Value::Number(n) => ValueV::Number(n),
            Value::Flag(b) => ValueV::Flag(b),
            Value::Item => ValueV::Item,
            Value::Container(v) => ValueV::Container(entries_model(v@)),
            Value::Null => ValueV::Null,
        }
    }
}

impl View for Value {
    type V = ValueV;

    open spec fn view(&self) -> ValueV {
        self.model()
    }
}

pub proof fn lemma_entries_model(s: Seq<(String, Value)>)
    ensures
        entries_model(s).len() == s.len(),
        forall|i: int|
            0 <= i < s.len() ==> #[trigger] entries_model(s)[i] == (s[i].0@, s[i].1.model()),
    decreases s.len(),
{
    if s.len() > 0 {
        lemma_entries_model(s.drop_last());
    }
}

/// `(k, v)` is a key and a value.
pub open spec fn entry_model(e: (String, Value)) -> (Seq<char>, ValueV) {
    (e.0@, e.1.model())
}

pub proof fn lemma_entries_push(s: Seq<(String, Value)>, e: (String, Value))
    ensures
        entries_model(s.push(e)) == entries_model(s).push(entry_model(e)),
{
    assert(s.push(e).drop_last() =~= s);
}

pub proof fn lemma_entries_update(s: Seq<(String, Value)>, i: int, e: (String, Value))
    requires
        0 <= i < s.len(),
    ensures
        entries_model(s.update(i, e)) == entries_model(s).update(i, entry_model(e)),
{
    lemma_entries_model(s);
    lemma_entries_model(s.update(i, e));
    assert(entries_model(s.update(i, e)) =~= entries_model(s).update(i, entry_model(e)));
}

pub proof fn lemma_entries_remove(s: Seq<(String, Value)>, i: int)
    requires
        0 <= i < s.len(),
    ensures
        entries_model(s.remove(i)) == entries_model(s).remove(i),
{
    lemma_entries_model(s);
    lemma_entries_model(s.remove(i));
    assert(entries_model(s.remove(i)) =~= entries_model(s).remove(i));
}

// ---------------------------------------------------------------------------
// Named entries
// ---------------------------------------------------------------------------

/// The first position at or after `i` whose entry is named `k`.
pub open spec fn find_from(s: Seq<(Seq<char>, ValueV)>, k: Seq<char>, i: nat) -> Option<nat>
    decreases s.len() - i,
{
    if i >= s.len() {
        None
    } else if s[i as int].0 == k {
        Some(i)
    } else {
        find_from(s, k, i + 1)
    }
}

/// The position of the entry named `k`.
pub open spec fn find_key(s: Seq<(Seq<char>, ValueV)>, k: Seq<char>) -> Option<nat> {
    find_from(s, k, 0)
}

/// The value of the entry named `k`.
pub open spec fn get_key(s: Seq<(Seq<char>, ValueV)>, k: Seq<char>) -> Option<ValueV> {
    match find_key(s, k) {
        Some(i) => Some(s[i as int].1),
        None => None,
    }
}

/// The entries with `k` set to `v`: replaced where `k` is, added at the end
/// where it is not.
pub open spec fn insert_key(s: Seq<(Seq<char>, ValueV)>, k: Seq<char>, v: ValueV) -> Seq<
    (Seq<char>, ValueV),
> {
    match find_key(s, k) {
        Some(i) => s.update(i as int, (k, v)),
        None => s.push((k, v)),
    }
}

/// The entries without `k`, and the value that `k` had.
pub open spec fn remove_key(s: Seq<(Seq<char>, ValueV)>, k: Seq<char>) -> (
    Seq<(Seq<char>, ValueV)>,
    Option<ValueV>,
) {
    match find_key(s, k) {
        Some(i) => (s.remove(i as int), Some(s[i as int].1)),
        None => (s, None),
    }
}

/// No name occurs twice among the entries.
pub open spec fn keys_distinct(s: Seq<(Seq<char>, ValueV)>) -> bool {
    forall|i: int, j: int| 0 <= i < j < s.len() ==> s[i].0 != s[j].0
}

pub proof fn lemma_find_from(s: Seq<(Seq<char>, ValueV)>, k: Seq<char>, i: nat)
    ensures
        find_from(s, k, i) matches Some(j) ==> i <= j < s.len() && s[j as int].0 == k && forall|
            m: int,
        | i <= m < j ==> s[m].0 != k,
        find_from(s, k, i) is None ==> forall|m: int| i <= m < s.len() ==> s[m].0 != k,
    decreases s.len() - i,
{
    if i < s.len() && s[i as int].0 != k {
        lemma_find_from(s, k, i + 1);
    }
}

/// Finds the position of the entry named `k`.
pub fn find_entry(v: &Vec<(String, Value)>, k: &str) -> (r: Option<usize>)
    ensures
        r matches Some(i) ==> i < v@.len(),
        match r {
            Some(i) => find_key(entries_model(v@), k@) == Some(i as nat),
            None => find_key(entries_model(v@), k@) is None,
        },
{
    let ghost s = entries_model(v@);
    proof {
        lemma_entries_model(v@);
    }
    let mut i: usize = 0;
    while i < v.len()
        invariant
            i <= v.len(),
            s == entries_model(v@),
            s.len() == v@.len(),
            forall|m: int| 0 <= m < v@.len() ==> #[trigger] s[m] == (v@[m].0@, v@[m].1.model()),
            find_from(s, k@, i as nat) == find_key(s, k@),
        decreases v.len() - i,
    {
        if str_eq(v[i].0.as_str(), k) {
            assert(s[i as int].0 == k@);
            return Some(i);
        }
        i = i + 1;
    }
    None
}

/// The value of the entry named `k`.
pub fn get_entry<'a>(v: &'a Vec<(String, Value)>, k: &str) -> (r: Option<&'a Value>)
    ensures
        match r {
            Some(x) => get_key(entries_model(v@), k@) == Some(x.model()),
            None => get_key(entries_model(v@), k@) is None,
        },
{
    proof {
        lemma_entries_model(v@);
    }
    match find_entry(v, k) {
        Some(i) => Some(&v[i].1),
        None => None,
    }
}

/// Sets the entry named `k` to `x`.
pub fn insert_entry(v: &mut Vec<(String, Value)>, k: String, x: Value)
    ensures
        entries_model(final(v)@) == insert_key(entries_model(old(v)@), k@, x.model()),
{
    let ghost kv = k@;
    let ghost xv = x.model();
    match find_entry(v, k.as_str()) {
        Some(i) => {
            let ghost e = (k, x);
            proof {
                lemma_entries_update(v@, i as int, e);
            }
            v.set(i, (k, x));
        },
        None => {
            let ghost e = (k, x);
            proof {
                lemma_entries_push(v@, e);
            }
            v.push((k, x));
        },
    }
}

/// Removes the entry named `k`, giving its value.
pub fn remove_entry(v: &mut Vec<(String, Value)>, k: &str) -> (r: Option<Value>)
    ensures
        (entries_model(final(v)@), match r {
            Some(x) => Some(x.model()),
            None => None::<ValueV>,
        }) == remove_key(entries_model(old(v)@), k@),
{
    match find_entry(v, k) {
        Some(i) => {
            proof {
                lemma_entries_remove(v@, i as int);
                lemma_entries_model(v@);
            }
            let (_, x) = v.remove(i);
            Some(x)
        },
        None => None,
    }
}

/// Whether the value counts as true: a flag that is on, a number other than
/// zero (a NaN included), a text that is not empty, an item, a container
/// with an entry.
pub open spec fn value_truthy(v: ValueV) -> bool {
    match v {
        ValueV::Text(s) => s.len() > 0,
        ValueV::Number(n) => !is_zero_bits(n),
        ValueV::Flag(b) => b,
        ValueV::Item => true,
        ValueV::Container(m) => m.len() > 0,
        ValueV::Null => false,
    }
}

/// The bit patterns of the doubles that equal zero: +0.0 and -0.0. Every
/// other double, NaN included, is unequal to zero.
pub open spec fn is_zero_bits(n: u64) -> bool {
    n & 0x7fff_ffff_ffff_ffffu64 == 0
}

/// Whether the double with bit pattern `n` equals zero.
pub fn number_is_zero(n: u64) -> (r: bool)
    ensures
        r == is_zero_bits(n),
{
    n & 0x7fff_ffff_ffff_ffffu64 == 0
}

/// The name of a value's kind.
pub open spec fn kind_name_of(v: ValueV) -> Seq<char> {
    match v {
        ValueV::Text(_) => "text"@,
        ValueV::Number(_) => "number"@,
        ValueV::Flag(_) => "flag"@,
        ValueV::Item => "item"@,
        ValueV::Container(_) => "container"@,
        ValueV::Null => "null"@,
    }
}

impl Value {
    /// The text of a text value.
    pub fn as_text(&self) -> (r: Option<&str>)
        ensures
            match self.model() {
                ValueV::Text(s) => r matches Some(t) && t@ == s,
                _ => r is None,
            },
    {
        match self {
            Value::Text(s) => Some(s.as_str()),
            _ => None,
        }
    }

    /// The bit pattern of a number value.
    pub fn as_number(&self) -> (r: Option<u64>)
        ensures
            match self.model() {
                ValueV::Number(n) => r == Some(n),
                _ => r is None,
            },
    {
        match self {
            Value::Number(n) => Some(*n),
            _ => None,
        }
    }

    /// The state of a flag value.
    pub fn as_flag(&self) -> (r: Option<bool>)
        ensures
            match self.model() {
                ValueV::Flag(b) => r == Some(b),
                _ => r is None,
            },
    {
        match self {
            Value::Flag(b) => Some(*b),
            _ => None,
        }
    }

    /// Whether the value is an item.
    pub fn is_item(&self) -> (r: bool)
        ensures
            r == (self.model() is Item),
    {
        match self {
            Value::Item => true,
            _ => false,
        }
    }

    /// The entries of a container value.
    pub fn as_container(&self) -> (r: Option<&Vec<(String, Value)>>)
        ensures
            match self.model() {
                ValueV::Container(m) => r matches Some(v) && entries_model(v@) == m,
                _ => r is None,
            },
    {
        match self {
            Value::Container(m) => Some(m),
            _ => None,
        }
    }

    /// The entries of a container value, to change them in place.
    pub fn as_container_mut(&mut self) -> (r: Option<&mut Vec<(String, Value)>>)
        ensures
            match *old(self) {
                Value::Container(m) => r matches Some(v) && *v == m && *final(self) == Value::Container(
                    *final(v),
                ),
                _ => r is None && *final(self) == *old(self),
            },
    {
        match self {
            Value::Container(m) => Some(m),
            _ => None,
        }
    }

    /// The name of the value's kind.
    pub fn kind_name(&self) -> (r: &'static str)
        ensures
            r@ == kind_name_of(self.model()),
    {
        match self {
            Value::Text(_) => "text",
            Value::Number(_) => "number",
            Value::Flag(_) => "flag",
            Value::Item => "item",
            Value::Container(_) => "container",
            Value::Null => "null",
        }
    }

    /// Whether the value counts as true (see `value_truthy`).
    pub fn is_truthy(&self) -> (r: bool)
        ensures
            r == value_truthy(self.model()),
    {
        proof {
            match self {
                Value::Container(m) => {
                    lemma_entries_model(m@);
                },
                _ => {},
            }
        }
        match self {
            Value::Text(s) => !s.as_str().is_empty(),
            Value::Number(n) => !number_is_zero(*n),
            Value::Flag(b) => *b,
            Value::Item => true,
            Value::Container(m) => m.len() > 0,
            Value::Null => false,
        }
    }

    /// How the value reads to a player: a text as it is, a flag as `on` or
    /// `off`, `[item]`, `[container]`, `null`, and a number as the number
    /// function writes it (`NumQuery::Show`).
    pub fn display_text<F: Fn(NumQuery) -> NumAnswer>(&self, numbers: &F) -> (r: String)
        requires
            forall|q: NumQuery| #[trigger] call_requires(*numbers, (q,)),
        ensures
            match self.model() {
                ValueV::Text(s) => r@ == s,
                ValueV::Number(n) => exists|a: NumAnswer|
                    #[trigger] call_ensures(*numbers, (NumQuery::Show(n),), a) && r@ == a.text@,
                ValueV::Flag(b) => r@ == (if b { "on"@ } else { "off"@ }),
                ValueV::Item => r@ == "[item]"@,
                ValueV::Container(_) => r@ == "[container]"@,
                ValueV::Null => r@ == "null"@,
            },
    {
        match self {
            Value::Text(s) => s.clone(),
            Value::Number(n) => {
                let a = numbers(NumQuery::Show(*n));
                let ghost ga = a;
                let t = a.text;
                proof {
                    // The answer witnesses the number's text.
                    assert(NumQuery::Show(self.model()->Number_0) == NumQuery::Show(*n));
                    assert(call_ensures(*numbers, (NumQuery::Show(self.model()->Number_0),), ga));
                }
                t
            },
            Value::Flag(b) => if *b {
                String::from_str("on")
            } else {
                String::from_str("off")
            },
            Value::Item => String::from_str("[item]"),
            Value::Container(_) => String::from_str("[container]"),
            Value::Null => String::from_str("null"),
        }
    }

    /// A copy of the value, containers included.
    pub fn duplicate(&self) -> (r: Value)
        ensures
            r.model() == self.model(),
        decreases self,
    {
        match self {
            Value::Text(s) => Value::Text(s.clone()),
            Value::Number(n) => Value::Number(*n),
            Value::Flag(b) => Value::Flag(*b),
            Value::Item => Value::Item,
            Value::Container(m) => Value::Container(duplicate_entries(m)),
            Value::Null => Value::Null,
        }
    }
}

/// A copy of named entries.
pub fn duplicate_entries(m: &Vec<(String, Value)>) -> (r: Vec<(String, Value)>)
    ensures
        entries_model(r@) == entries_model(m@),
    decreases m,
{
    let mut r: Vec<(String, Value)> = Vec::new();
    let mut i: usize = 0;
    proof {
        lemma_entries_model(m@);
    }
    while i < m.len()
        invariant
            i <= m.len(),
            r@.len() == i,
            forall|j: int| 0 <= j < i ==> #[trigger] entry_model(r@[j]) == entry_model(m@[j]),
        decreases m.len() - i,
    {
        proof {
            assert(decreases_to!(m => m@[i as int].1)) by {
                assert(decreases_to!(m => m@));
                assert(decreases_to!(m@ => m@[i as int]));
                assert(decreases_to!(m@[i as int] => m@[i as int].1));
            }
        }
        let k = m[i].0.clone();
        let x = m[i].1.duplicate();
        r.push((k, x));
        i = i + 1;
    }
    proof {
        lemma_entries_model(r@);
        lemma_entries_model(m@);
        assert forall|j: int| 0 <= j < r@.len() implies entries_model(r@)[j] == entries_model(m@)[j] by {
            assert(entry_model(r@[j]) == entry_model(m@[j]));
        }
        assert(entries_model(r@) =~= entries_model(m@));
    }
    r
}

} // verus!
