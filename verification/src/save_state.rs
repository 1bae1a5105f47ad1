//! Saved games: what a save holds, and the order in which saves are listed.
//!
//! Writing, reading and finding save files is the program's business; the
//! library makes a fresh save and orders a list of saves, newest first.
use vstd::prelude::*;
use crate::text::to_chars;
use crate::value::{duplicate_entries, entries_model, Value, ValueV};

verus! {

/// When a save was made, which story it belongs to, and the player's name
/// for it.
#[derive(Debug)]
pub struct GameMetadata {
    pub timestamp: String,
    pub story_file: String,
    pub save_name: String,
}

/// A saved game: the position in the story, the characters, the current
/// chapter and section, and the save's metadata.
#[derive(Debug)]
pub struct GameState {
    pub current_index: usize,
    pub globals: Vec<(String, Value)>,
    pub current_chapter: Option<String>,
    pub current_section: Option<String>,
    pub metadata: GameMetadata,
}

/// The mathematical value of a `GameState`.
pub struct GameStateV {
    pub current_index: nat,
    pub globals: Seq<(Seq<char>, ValueV)>,
    pub current_chapter: Option<Seq<char>>,
    pub current_section: Option<Seq<char>>,
    pub timestamp: Seq<char>,
    pub story_file: Seq<char>,
    pub save_name: Seq<char>,
}

pub open spec fn opt_text(o: Option<String>) -> Option<Seq<char>> {
    match o {
        Some(s) => Some(s@),
        None => None,
    }
}

impl View for GameState {
    type V = GameStateV;

    open spec fn view(&self) -> GameStateV {
        GameStateV {
            current_index: self.current_index as nat,
            globals: entries_model(self.globals@),
            current_chapter: opt_text(self.current_chapter),
            current_section: opt_text(self.current_section),
            timestamp: self.metadata.timestamp@,
            story_file: self.metadata.story_file@,
            save_name: self.metadata.save_name@,
        }
    }
}

/// The values of a list of saves.
pub open spec fn saves_view(s: Seq<GameState>) -> Seq<GameStateV> {
    s.map_values(|g: GameState| g@)
}

/// The local time now, written `YYYY-MM-DD HH:MM:SS`: calls
/// `chrono::Local::now().format("%Y-%m-%d %H:%M:%S").to_string()`. Nothing
/// is stated of the result, which depends on the clock and the machine's
/// time zone.
#[verifier::external_body]
fn local_timestamp() -> (r: String) {
    chrono::Local::now().format("%Y-%m-%d %H:%M:%S").to_string()
}

impl GameState {
    /// A save at the beginning of `story_file`, named `save_name`, stamped
    /// `timestamp`.
    pub fn new_at(story_file: String, save_name: String, timestamp: String) -> (r: GameState)
        ensures
            r@.current_index == 0,
            r@.globals == Seq::<(Seq<char>, ValueV)>::empty(),
            r@.current_chapter is None,
            r@.current_section is None,
            r@.story_file == story_file@,
            r@.save_name == save_name@,
            r@.timestamp == timestamp@,
    {
        let r = GameState {
            current_index: 0,
            globals: Vec::new(),
            current_chapter: None,
            current_section: None,
            metadata: GameMetadata { timestamp, story_file, save_name },
        };
        proof {
            assert(entries_model(r.globals@) =~= Seq::<(Seq<char>, ValueV)>::empty());
        }
        r
    }

    /// A save at the beginning of `story_file`, named `save_name`, stamped
    /// with the local time now (see `new_at`).
    pub fn new(story_file: String, save_name: String) -> (r: GameState)
        ensures
            r@.current_index == 0,
            r@.globals == Seq::<(Seq<char>, ValueV)>::empty(),
            r@.current_chapter is None,
            r@.current_section is None,
            r@.story_file == story_file@,
            r@.save_name == save_name@,
    {
        GameState::new_at(story_file, save_name, local_timestamp())
    }

    /// A copy of the save.
    pub fn duplicate(&self) -> (r: GameState)
        ensures
            r@ == self@,
    {
        GameState {
            current_index: self.current_index,
            globals: duplicate_entries(&self.globals),
            current_chapter: match &self.current_chapter {
                Some(s) => Some(s.clone()),
                None => None,
            },
            current_section: match &self.current_section {
                Some(s) => Some(s.clone()),
                None => None,
            },
            metadata: GameMetadata {
                timestamp: self.metadata.timestamp.clone(),
                story_file: self.metadata.story_file.clone(),
                save_name: self.metadata.save_name.clone(),
            },
        }
    }
}

/// Whether `a` comes before `b` in the order of `String`: lexicographic by
/// characters (the order of their UTF-8 bytes).
pub open spec fn text_less(a: Seq<char>, b: Seq<char>) -> bool
    decreases a.len(),
{
    if a.len() == 0 {
        b.len() > 0
    } else if b.len() == 0 {
        false
    } else if (a[0] as u32) != (b[0] as u32) {
        (a[0] as u32) < (b[0] as u32)
    } else {
        text_less(a.drop_first(), b.drop_first())
    }
}

/// Whether the saves are ordered newest first: no timestamp comes before a
/// later one's.
pub open spec fn newest_first(s: Seq<GameStateV>) -> bool {
    forall|i: int, j: int| 0 <= i < j < s.len() ==> !text_less(#[trigger] s[i].timestamp, #[trigger] s[j].timestamp)
}

/// Whether a save is stamped `t`.
pub open spec fn stamped_at(t: Seq<char>) -> spec_fn(GameStateV) -> bool {
    |g: GameStateV| g.timestamp == t
}

/// The saves stamped `t`, in their order.
pub open spec fn stamped(s: Seq<GameStateV>, t: Seq<char>) -> Seq<GameStateV> {
    s.filter(stamped_at(t))
}

/// Whether `a` comes before `b` in the order of `String`.
pub fn timestamp_less(a: &str, b: &str) -> (r: bool)
    ensures
        r == text_less(a@, b@),
{
    let x = to_chars(a);
    let y = to_chars(b);
    let mut i: usize = 0;
    proof {
        assert(x@.skip(0) =~= x@);
        assert(y@.skip(0) =~= y@);
    }
    while i < x.len() && i < y.len()
        invariant
            x@ == a@,
            y@ == b@,
            i <= x.len(),
            i <= y.len(),
            text_less(x@, y@) == text_less(x@.skip(i as int), y@.skip(i as int)),
        decreases x.len() - i,
    {
        let (c, d) = (x[i] as u32, y[i] as u32);
        proof {
            assert(x@.skip(i as int)[0] == x@[i as int]);
            assert(y@.skip(i as int)[0] == y@[i as int]);
            assert(x@.skip(i as int).drop_first() =~= x@.skip(i + 1));
            assert(y@.skip(i as int).drop_first() =~= y@.skip(i + 1));
        }
        if c != d {
            proof {
                let (a1, b1) = (x@.skip(i as int), y@.skip(i as int));
                assert(a1.len() > 0 && b1.len() > 0);
                assert((a1[0] as u32) == c && (b1[0] as u32) == d);
                assert(text_less(a1, b1) == (c < d));
            }
            return c < d;
        }
        i = i + 1;
    }
    proof {
        if i == x.len() {
            assert(x@.skip(i as int) =~= Seq::<char>::empty());
        }
        if i == y.len() {
            assert(y@.skip(i as int) =~= Seq::<char>::empty());
        }
    }
    i == x.len() && i < y.len()
}

/// The text order never holds both ways.
pub proof fn lemma_text_less_asymmetric(a: Seq<char>, b: Seq<char>)
    ensures
        !(text_less(a, b) && text_less(b, a)),
    decreases a.len(),
{
    if a.len() > 0 && b.len() > 0 && (a[0] as u32) == (b[0] as u32) {
        lemma_text_less_asymmetric(a.drop_first(), b.drop_first());
    }
}

/// The text order is transitive.
pub proof fn lemma_text_less_transitive(a: Seq<char>, b: Seq<char>, c: Seq<char>)
    requires
        text_less(a, b),
        text_less(b, c),
    ensures
        text_less(a, c),
    decreases a.len(),
{
    if a.len() > 0 && b.len() > 0 && c.len() > 0 && (a[0] as u32) == (b[0] as u32) && (b[0] as u32)
        == (c[0] as u32) {
        lemma_text_less_transitive(a.drop_first(), b.drop_first(), c.drop_first());
    }
}

/// Two texts that differ are ordered one way or the other.
pub proof fn lemma_text_less_total(a: Seq<char>, b: Seq<char>)
    requires
        a != b,
    ensures
        text_less(a, b) || text_less(b, a),
    decreases a.len(),
{
    if a.len() > 0 && b.len() > 0 && (a[0] as u32) == (b[0] as u32) {
        assert(a[0] == b[0]) by {
            vstd::utf8::char_u32_cast(a[0], a[0] as u32);
            vstd::utf8::char_u32_cast(b[0], b[0] as u32);
        }
        if a.drop_first() == b.drop_first() {
            assert(a =~= seq![a[0]] + a.drop_first());
            assert(b =~= seq![b[0]] + b.drop_first());
        }
        lemma_text_less_total(a.drop_first(), b.drop_first());
    } else if a.len() == 0 && b.len() == 0 {
        assert(a =~= b);
    }
}

/// Where a save stamped `t` goes in a list ordered newest first: after the
/// saves stamped `t` or later.
pub open spec fn slot(s: Seq<GameStateV>, t: Seq<char>, i: nat) -> nat
    decreases s.len() - i,
{
    if i >= s.len() {
        i
    } else if text_less(s[i as int].timestamp, t) {
        i
    } else {
        slot(s, t, i + 1)
    }
}

/// Orders saves newest first; saves with the same timestamp keep their
/// order.
pub fn sort_newest_first(saves: Vec<GameState>) -> (r: Vec<GameState>)
    ensures
        newest_first(saves_view(r@)),
        saves_view(r@).to_multiset() == saves_view(saves@).to_multiset(),
        forall|t: Seq<char>| #[trigger] stamped(saves_view(r@), t) == stamped(saves_view(saves@), t),
{
    broadcast use vstd::seq_lib::group_to_multiset_ensures;

    let ghost input = saves_view(saves@);
    let mut rest = saves;
    let mut out: Vec<GameState> = Vec::new();
    let ghost mut taken: Seq<GameStateV> = Seq::empty();
    proof {
        assert(saves_view(out@) =~= Seq::<GameStateV>::empty());
        assert(saves_view(rest@) =~= input);
    }
    while rest.len() > 0
        invariant
            taken + saves_view(rest@) == input,
            newest_first(saves_view(out@)),
            saves_view(out@).to_multiset() == taken.to_multiset(),
            forall|t: Seq<char>| #[trigger] stamped(saves_view(out@), t) == stamped(taken, t),
        decreases rest.len(),
    {
        let ghost before = saves_view(out@);
        let ghost rv = saves_view(rest@);
        let x = rest.remove(0);
        proof {
            assert(saves_view(rest@) =~= rv.drop_first());
            assert(rv[0] == x@);
        }
        let mut p: usize = 0;
        while p < out.len() && !timestamp_less(out[p].metadata.timestamp.as_str(), x.metadata.timestamp.as_str())
            invariant
                p <= out.len(),
                saves_view(out@) == before,
                forall|k: int| 0 <= k < p ==> !text_less(#[trigger] before[k].timestamp, x@.timestamp),
            decreases out.len() - p,
        {
            p = p + 1;
        }
        let ghost xv = x@;
        out.insert(p, x);
        proof {
            let after = saves_view(out@);
            assert(after =~= before.insert(p as int, xv));
            lemma_insert_keeps_order(before, p as int, xv);
            vstd::seq_lib::to_multiset_insert(before, p as int, xv);
            vstd::seq_lib::to_multiset_build(taken, xv);
            lemma_insert_stamped(before, taken, p as int, xv);
            taken = taken.push(xv);
            assert(taken + saves_view(rest@) =~= input);
        }
    }
    proof {
        assert(taken =~= input);
    }
    out
}

/// Inserting a save after every save stamped at least as late, and before
/// one stamped earlier, keeps a list newest first.
proof fn lemma_insert_keeps_order(s: Seq<GameStateV>, p: int, x: GameStateV)
    requires
        0 <= p <= s.len(),
        newest_first(s),
        forall|k: int| 0 <= k < p ==> !text_less(#[trigger] s[k].timestamp, x.timestamp),
        p < s.len() ==> text_less(s[p].timestamp, x.timestamp),
    ensures
        newest_first(s.insert(p, x)),
{
    let r = s.insert(p, x);
    assert forall|i: int, j: int| 0 <= i < j < r.len() implies !text_less(
        #[trigger] r[i].timestamp,
        #[trigger] r[j].timestamp,
    ) by {
        if i < p && j < p {
            assert(r[i] == s[i] && r[j] == s[j]);
        } else if i < p && j == p {
            assert(r[i] == s[i] && r[j] == x);
        } else if i < p {
            assert(r[i] == s[i] && r[j] == s[j - 1]);
        } else if i == p {
            assert(r[i] == x && r[j] == s[j - 1]);
            assert(p < s.len());
            if text_less(x.timestamp, s[j - 1].timestamp) {
                if j - 1 == p {
                    lemma_text_less_asymmetric(x.timestamp, s[p].timestamp);
                } else {
                    assert(!text_less(s[p].timestamp, s[j - 1].timestamp));
                    if s[p].timestamp == s[j - 1].timestamp {
                        lemma_text_less_asymmetric(x.timestamp, s[p].timestamp);
                    } else {
                        lemma_text_less_total(s[p].timestamp, s[j - 1].timestamp);
                        lemma_text_less_transitive(x.timestamp, s[j - 1].timestamp, s[p].timestamp);
                        lemma_text_less_asymmetric(x.timestamp, s[p].timestamp);
                    }
                }
            }
        } else {
            assert(r[i] == s[i - 1] && r[j] == s[j - 1]);
        }
    }
}

/// Inserting a save where `sort_newest_first` puts it adds it after the
/// saves with its timestamp.
proof fn lemma_insert_stamped(s: Seq<GameStateV>, taken: Seq<GameStateV>, p: int, x: GameStateV)
    requires
        0 <= p <= s.len(),
        newest_first(s),
        forall|k: int| 0 <= k < p ==> !text_less(#[trigger] s[k].timestamp, x.timestamp),
        p < s.len() ==> text_less(s[p].timestamp, x.timestamp),
        forall|t: Seq<char>| #[trigger] stamped(s, t) == stamped(taken, t),
    ensures
        forall|t: Seq<char>| #[trigger] stamped(s.insert(p, x), t) == stamped(taken.push(x), t),
{
    assert forall|t: Seq<char>| #[trigger] stamped(s.insert(p, x), t) == stamped(taken.push(x), t) by {
        let f = stamped_at(t);
        let a = s.subrange(0, p);
        let b = s.subrange(p, s.len() as int);
        assert(s =~= a + b);
        assert(s.insert(p, x) =~= a + seq![x] + b);
        Seq::filter_distributes_over_add(a + seq![x], b, f);
        Seq::filter_distributes_over_add(a, seq![x], f);
        Seq::filter_distributes_over_add(a, b, f);
        taken.lemma_filter_push(x, f);
        assert(seq![x] =~= Seq::<GameStateV>::empty().push(x));
        Seq::<GameStateV>::empty().lemma_filter_push(x, f);
        assert(Seq::<GameStateV>::empty().filter(f) =~= Seq::<GameStateV>::empty()) by {
            reveal(Seq::filter);
        }
        if x.timestamp == t {
            assert forall|k: int| 0 <= k < b.len() implies !f(b[k]) by {
                assert(b[k] == s[p + k]);
                if k == 0 {
                    if s[p].timestamp == x.timestamp {
                        lemma_text_less_irreflexive(x.timestamp);
                    }
                } else {
                    assert(!text_less(s[p].timestamp, s[p + k].timestamp));
                    if s[p + k].timestamp == x.timestamp {
                        lemma_text_less_asymmetric(s[p].timestamp, x.timestamp);
                    }
                }
            }
            lemma_filter_none(b, f);
            assert(seq![x].filter(f) =~= seq![x]);
            assert(s.filter(f) =~= a.filter(f));
            assert(s.insert(p, x).filter(f) =~= a.filter(f) + seq![x]);
            assert(taken.push(x).filter(f) =~= taken.filter(f).push(x));
            assert(stamped(s, t) == stamped(taken, t));
            assert(taken.filter(f) == s.filter(f));
            assert(a.filter(f) + seq![x] =~= a.filter(f).push(x));
        } else {
            assert(seq![x].filter(f) =~= Seq::<GameStateV>::empty());
            assert(s.insert(p, x).filter(f) =~= a.filter(f) + b.filter(f));
            assert(taken.push(x).filter(f) =~= taken.filter(f));
            assert(stamped(s, t) == stamped(taken, t));
            assert(taken.filter(f) == s.filter(f));
        }
    }
}

/// No text comes before itself.
proof fn lemma_text_less_irreflexive(a: Seq<char>)
    ensures
        !text_less(a, a),
    decreases a.len(),
{
    if a.len() > 0 {
        lemma_text_less_irreflexive(a.drop_first());
    }
}

/// Filtering out every element leaves nothing.
proof fn lemma_filter_none(s: Seq<GameStateV>, f: spec_fn(GameStateV) -> bool)
    requires
        forall|k: int| 0 <= k < s.len() ==> !f(s[k]),
    ensures
        s.filter(f) =~= Seq::<GameStateV>::empty(),
    decreases s.len(),
{
    reveal(Seq::filter);
    if s.len() > 0 {
        lemma_filter_none(s.drop_last(), f);
    }
}

} // verus!
