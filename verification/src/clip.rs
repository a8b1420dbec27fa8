//! Named clip registers: independently addressable last-in first-out
//! stacks of yanked or deleted text.
//!
//! The store is modelled as a map from register names to stacks of
//! texts. Pushing appends to a register's stack (creating it first if
//! need be), peeking reads the top without consuming it, and popping
//! removes it. Registers are unbounded and never evicted.

use vstd::prelude::*;

verus! {

/// Names one clip register. The editor uses `"` as the register that
/// takes yanked and deleted text when no explicit register was named.
#[derive(Clone, Copy, PartialEq, Eq, Structural, Debug)]
pub struct ClipstackId(pub char);

/// One register and its stack, newest text last.
struct ClipEntry {
    key: char,
    stack: Vec<Vec<char>>,
}

/// The register store; see [`Clipstacks::view`] for its model.
pub struct Clipstacks {
    stacks: Vec<ClipEntry>,
}

/// The texts a stack of vectors stands for.
spec fn stack_view(s: Seq<Vec<char>>) -> Seq<Seq<char>> {
    s.map_values(|t: Vec<char>| t@)
}

/// The map a sequence of register entries stands for. Later entries
/// would shadow earlier ones; the store keeps its keys unique, so each
/// register appears once.
spec fn stacks_view(s: Seq<ClipEntry>) -> Map<char, Seq<Seq<char>>>
    decreases s.len(),
{
    if s.len() == 0 {
        Map::empty()
    } else {
        stacks_view(s.drop_last()).insert(s.last().key, stack_view(s.last().stack@))
    }
}

/// No register name appears twice.
spec fn keys_unique(s: Seq<ClipEntry>) -> bool {
    forall|i: int, j: int| 0 <= i < j < s.len() ==> s[i].key != s[j].key
}

/// The map after pushing `t` onto register `r`: the stack grows by one,
/// an absent register starting from the empty stack.
pub open spec fn pushed(m: Map<char, Seq<Seq<char>>>, r: char, t: Seq<char>) -> Map<
    char,
    Seq<Seq<char>>,
> {
    m.insert(
        r,
        (if m.contains_key(r) {
            m[r]
        } else {
            Seq::empty()
        }).push(t),
    )
}

/// The map after popping register `r`: the newest text leaves; popping
/// an absent or empty register changes nothing.
pub open spec fn popped(m: Map<char, Seq<Seq<char>>>, r: char) -> Map<char, Seq<Seq<char>>> {
    if m.contains_key(r) && m[r].len() > 0 {
        m.insert(r, m[r].drop_last())
    } else {
        m
    }
}

/// The newest text on register `r`, if the register holds any.
pub open spec fn top_of(m: Map<char, Seq<Seq<char>>>, r: char) -> Option<Seq<char>> {
    if m.contains_key(r) && m[r].len() > 0 {
        Some(m[r].last())
    } else {
        None
    }
}

/// An entry's register is in the map, holding that entry's stack.
proof fn lemma_view_entry(s: Seq<ClipEntry>, i: int)
    requires
        keys_unique(s),
        0 <= i < s.len(),
    ensures
        stacks_view(s).contains_key(s[i].key),
        stacks_view(s)[s[i].key] == stack_view(s[i].stack@),
    decreases s.len(),
{
    if i < s.len() - 1 {
        assert(keys_unique(s.drop_last())) by {
            assert(forall|a: int, b: int|
                0 <= a < b < s.drop_last().len() ==> s.drop_last()[a] == s[a] && s.drop_last()[b]
                    == s[b]);
        }
        lemma_view_entry(s.drop_last(), i);
        assert(s.drop_last()[i] == s[i]);
        assert(s[i].key != s.last().key);
    }
}

/// A register no entry names is not in the map.
proof fn lemma_view_absent(s: Seq<ClipEntry>, r: char)
    requires
        forall|i: int| 0 <= i < s.len() ==> s[i].key != r,
    ensures
        !stacks_view(s).contains_key(r),
    decreases s.len(),
{
    if s.len() > 0 {
        assert(forall|i: int| 0 <= i < s.drop_last().len() ==> s.drop_last()[i] == s[i]);
        lemma_view_absent(s.drop_last(), r);
        assert(s.last() == s[s.len() - 1]);
    }
}

/// Replacing entry `i`'s stack re-points its register at the new stack
/// and leaves every other register alone.
proof fn lemma_view_update(s: Seq<ClipEntry>, i: int, e: ClipEntry)
    requires
        keys_unique(s),
        0 <= i < s.len(),
        s[i].key == e.key,
    ensures
        stacks_view(s.update(i, e)) =~= stacks_view(s).insert(e.key, stack_view(e.stack@)),
    decreases s.len(),
{
    let s2 = s.update(i, e);
    if i == s.len() - 1 {
        assert(s2.drop_last() =~= s.drop_last());
        assert(s2.last() == e);
    } else {
        assert(keys_unique(s.drop_last())) by {
            assert(forall|a: int, b: int|
                0 <= a < b < s.drop_last().len() ==> s.drop_last()[a] == s[a] && s.drop_last()[b]
                    == s[b]);
        }
        assert(s2.drop_last() =~= s.drop_last().update(i, e));
        lemma_view_update(s.drop_last(), i, e);
        assert(s2.last() == s.last());
        assert(s[i].key != s.last().key) by {
            assert(s.last() == s[s.len() - 1]);
        }
        assert(stacks_view(s2) =~= stacks_view(s).insert(e.key, stack_view(e.stack@)));
    }
}

impl View for Clipstacks {
    type V = Map<char, Seq<Seq<char>>>;

    closed spec fn view(&self) -> Map<char, Seq<Seq<char>>> {
        stacks_view(self.stacks@)
    }
}

impl Clipstacks {
    /// The store's own invariant: one entry per register.
    pub closed spec fn wf(self) -> bool {
        keys_unique(self.stacks@)
    }

    /// An empty store: no registers yet.
    pub fn new() -> (r: Clipstacks)
        ensures
            r@ == Map::<char, Seq<Seq<char>>>::empty(),
            r.wf(),
    {
        Clipstacks { stacks: Vec::new() }
    }

    /// The position of `r`'s entry, if the store holds one.
    fn find(&self, r: char) -> (pos: Option<usize>)
        ensures
            match pos {
                Some(i) => i < self.stacks@.len() && self.stacks@[i as int].key == r,
                None => forall|i: int| 0 <= i < self.stacks@.len() ==> self.stacks@[i].key != r,
            },
    {
        let n = self.stacks.len();
        let mut i: usize = 0;
        while i < n
            invariant
                i <= n,
                n == self.stacks@.len(),
                forall|t: int| 0 <= t < i ==> self.stacks@[t].key != r,
            decreases n - i,
        {
            if self.stacks[i].key == r {
                return Some(i);
            }
            i = i + 1;
        }
        None
    }

    /// Pushes `text` onto register `id`, creating the register the
    /// first time it is named.
    pub fn push(&mut self, id: &ClipstackId, text: Vec<char>)
        requires
            old(self).wf(),
        ensures
            final(self)@ == pushed(old(self)@, id.0, text@),
            final(self).wf(),
    {
        let r = id.0;
        let ghost s0 = self.stacks@;
        let ghost tv = text@;
        match self.find(r) {
            Some(i) => {
                proof {
                    lemma_view_entry(s0, i as int);
                }
                let entry = &mut self.stacks[i];
                entry.stack.push(text);
                proof {
                    lemma_view_update(s0, i as int, self.stacks@[i as int]);
                    assert(stack_view(self.stacks@[i as int].stack@) =~= stack_view(
                        s0[i as int].stack@,
                    ).push(tv));
                    assert(self@ =~= pushed(old(self)@, r, tv));
                }
            },
            None => {
                proof {
                    lemma_view_absent(s0, r);
                }
                let mut stack: Vec<Vec<char>> = Vec::new();
                stack.push(text);
                self.stacks.push(ClipEntry { key: r, stack });
                proof {
                    assert(self.stacks@.drop_last() =~= s0);
                    assert(stack_view(self.stacks@.last().stack@) =~= Seq::<Seq<char>>::empty()
                        .push(tv));
                    assert(self@ =~= pushed(old(self)@, r, tv));
                }
            },
        }
    }

    /// The newest text on register `id`, without consuming it.
    pub fn top(&self, id: &ClipstackId) -> (r: Option<Vec<char>>)
        requires
            self.wf(),
        ensures
            match r {
                Some(t) => top_of(self@, id.0) == Some(t@),
                None => top_of(self@, id.0) is None,
            },
    {
        match self.find(id.0) {
            Some(i) => {
                proof {
                    lemma_view_entry(self.stacks@, i as int);
                }
                let stack = &self.stacks[i].stack;
                let n = stack.len();
                if n == 0 {
                    None
                } else {
                    Some(clone_chars(&stack[n - 1]))
                }
            },
            None => {
                proof {
                    lemma_view_absent(self.stacks@, id.0);
                }
                None
            },
        }
    }

    /// Removes and returns the newest text on register `id`.
    pub fn pop(&mut self, id: &ClipstackId) -> (r: Option<Vec<char>>)
        requires
            old(self).wf(),
        ensures
            final(self)@ == popped(old(self)@, id.0),
            final(self).wf(),
            match r {
                Some(t) => top_of(old(self)@, id.0) == Some(t@),
                None => top_of(old(self)@, id.0) is None,
            },
    {
        let ghost s0 = self.stacks@;
        match self.find(id.0) {
            Some(i) => {
                proof {
                    lemma_view_entry(s0, i as int);
                }
                let entry = &mut self.stacks[i];
                let popped_text = entry.stack.pop();
                proof {
                    lemma_view_update(s0, i as int, self.stacks@[i as int]);
                    if s0[i as int].stack@.len() > 0 {
                        assert(stack_view(self.stacks@[i as int].stack@) =~= stack_view(
                            s0[i as int].stack@,
                        ).drop_last());
                        assert(self@ =~= popped(old(self)@, id.0));
                    } else {
                        assert(stack_view(self.stacks@[i as int].stack@) =~= stack_view(
                            s0[i as int].stack@,
                        ));
                        assert(self@ =~= popped(old(self)@, id.0));
                    }
                }
                popped_text
            },
            None => {
                proof {
                    lemma_view_absent(s0, id.0);
                }
                None
            },
        }
    }
}

/// A stack's texts rendered oldest first, each closed by `|`.
pub open spec fn texts_text(ts: Seq<Seq<char>>) -> Seq<char>
    decreases ts.len(),
{
    if ts.len() == 0 {
        Seq::empty()
    } else {
        texts_text(ts.drop_last()) + ts.last() + seq!['|']
    }
}

/// One register rendered: `"`, its name, `=`, its texts, `;`.
pub open spec fn entry_text(e: (char, Seq<Seq<char>>)) -> Seq<char> {
    seq!['"', e.0, '='] + texts_text(e.1) + seq![';']
}

/// A register listing rendered entry by entry.
pub open spec fn dump_of(es: Seq<(char, Seq<Seq<char>>)>) -> Seq<char>
    decreases es.len(),
{
    if es.len() == 0 {
        Seq::empty()
    } else {
        dump_of(es.drop_last()) + entry_text(es.last())
    }
}

impl Clipstacks {
    /// The registers as an ordered listing: each register once, in the
    /// order the store first saw it, with its stack of texts. The
    /// listing enumerates the map the store stands for exactly —
    /// [`lemma_entries_faithful`] says so.
    pub closed spec fn entries(self) -> Seq<(char, Seq<Seq<char>>)> {
        self.stacks@.map_values(|e: ClipEntry| (e.key, stack_view(e.stack@)))
    }

    /// A diagnostic rendering of every register and its texts, oldest
    /// first: what the register-listing colon-command shows.
    #[verifier::loop_isolation(false)]
    pub fn dump(&self) -> (r: Vec<char>)
        ensures
            r@ == dump_of(self.entries()),
    {
        let ghost es = self.entries();
        let mut r: Vec<char> = Vec::new();
        let n = self.stacks.len();
        let mut i: usize = 0;
        while i < n
            invariant
                i <= n,
                r@ == dump_of(es.take(i as int)),
            decreases n - i,
        {
            r.push('"');
            r.push(self.stacks[i].key);
            r.push('=');
            let ghost head = dump_of(es.take(i as int)) + seq!['"', es[i as int].0, '='];
            proof {
                assert(es[i as int].0 == self.stacks@[i as int].key);
                assert(r@ =~= head + texts_text(es[i as int].1.take(0)));
            }
            let m = self.stacks[i].stack.len();
            let mut k: usize = 0;
            while k < m
                invariant
                    k <= m,
                    r@ == head + texts_text(es[i as int].1.take(k as int)),
                decreases m - k,
            {
                let text = &self.stacks[i].stack[k];
                proof {
                    assert(es[i as int].1[k as int] == text@);
                }
                let tl = text.len();
                let mut t: usize = 0;
                while t < tl
                    invariant
                        t <= tl,
                        r@ == head + texts_text(es[i as int].1.take(k as int)) + text@.take(
                            t as int,
                        ),
                    decreases tl - t,
                {
                    let c = text[t];
                    r.push(c);
                    t = t + 1;
                    proof {
                        assert(text@.take(t as int) =~= text@.take(t as int - 1).push(
                            text@[t as int - 1],
                        ));
                        assert(r@ =~= head + texts_text(es[i as int].1.take(k as int))
                            + text@.take(t as int));
                    }
                }
                r.push('|');
                k = k + 1;
                proof {
                    let pref = es[i as int].1.take(k as int);
                    assert(pref.drop_last() =~= es[i as int].1.take(k as int - 1));
                    assert(pref.last() == es[i as int].1[k as int - 1]);
                    assert(text@.take(tl as int) =~= text@);
                    assert(r@ =~= head + texts_text(pref));
                }
            }
            r.push(';');
            i = i + 1;
            proof {
                let pref = es.take(i as int);
                assert(pref.drop_last() =~= es.take(i as int - 1));
                assert(pref.last() == es[i as int - 1]);
                assert(es[i as int - 1].1.take(es[i as int - 1].1.len() as int) =~= es[
                    i as int - 1
                ].1);
                assert(r@ =~= dump_of(pref));
            }
        }
        proof {
            assert(es.take(n as int) =~= es);
        }
        r
    }
}

/// The listing [`Clipstacks::entries`] is a faithful enumeration of the
/// store's map: each entry's register is in the map with exactly that
/// stack, no register appears twice, and every register of the map
/// appears.
pub proof fn lemma_entries_faithful(c: Clipstacks)
    requires
        c.wf(),
    ensures
        forall|i: int|
            0 <= i < c.entries().len() ==> c@.contains_key(#[trigger] c.entries()[i].0)
                && c@[c.entries()[i].0] == c.entries()[i].1,
        forall|i: int, j: int| 0 <= i < j < c.entries().len() ==> c.entries()[i].0 != c.entries()[j].0,
        forall|k: char|
            c@.contains_key(k) ==> exists|i: int|
                0 <= i < c.entries().len() && (#[trigger] c.entries()[i]).0 == k,
{
    let es = c.entries();
    assert forall|i: int|
        0 <= i < es.len() implies c@.contains_key(#[trigger] es[i].0) && c@[es[i].0] == es[i].1 by {
        lemma_view_entry(c.stacks@, i);
    }
    assert forall|k: char| c@.contains_key(k) implies exists|i: int|
        0 <= i < es.len() && (#[trigger] es[i]).0 == k by {
        if forall|i: int| 0 <= i < c.stacks@.len() ==> (#[trigger] c.stacks@[i]).key != k {
            lemma_view_absent(c.stacks@, k);
        } else {
            let i = choose|i: int| 0 <= i < c.stacks@.len() && (#[trigger] c.stacks@[i]).key == k;
            assert(es[i].0 == k);
        }
    }
}

/// The characters `v[a .. b]`, copied out.
#[verifier::loop_isolation(false)]
pub(crate) fn clone_range(v: &Vec<char>, a: usize, b: usize) -> (r: Vec<char>)
    requires
        a <= b <= v@.len(),
    ensures
        r@ == v@.subrange(a as int, b as int),
{
    let mut r: Vec<char> = Vec::new();
    let mut i: usize = a;
    while i < b
        invariant
            a <= i <= b,
            r@ == v@.subrange(a as int, i as int),
        decreases b - i,
    {
        r.push(v[i]);
        i = i + 1;
        proof {
            assert(v@.subrange(a as int, i as int) =~= v@.subrange(a as int, i as int - 1).push(
                v@[i as int - 1],
            ));
        }
    }
    r
}

/// A copy of a text, character for character.
fn clone_chars(v: &Vec<char>) -> (r: Vec<char>)
    ensures
        r@ == v@,
{
    let n = v.len();
    let r = clone_range(v, 0, n);
    proof {
        assert(v@.subrange(0, n as int) =~= v@);
    }
    r
}

/// Register stacks are last-in first-out: on a register that starts
/// empty or absent, pushing `a` then `b` lets `b` be popped first, then
/// `a`, and then nothing is left; peeking at the top does not consume
/// it.
pub proof fn lemma_register_lifo(m: Map<char, Seq<Seq<char>>>, r: char, a: Seq<char>, b: Seq<char>)
    requires
        !m.contains_key(r) || m[r].len() == 0,
    ensures
        ({
            let m1 = pushed(m, r, a);
            let m2 = pushed(m1, r, b);
            &&& top_of(m2, r) == Some(b)
            &&& top_of(popped(m2, r), r) == Some(a)
            &&& top_of(popped(popped(m2, r), r), r) is None
            &&& top_of(m1, r) == Some(a)
            &&& popped(m2, r) == m1
        }),
{
    let e = if m.contains_key(r) {
        m[r]
    } else {
        Seq::<Seq<char>>::empty()
    };
    let m1 = pushed(m, r, a);
    let m2 = pushed(m1, r, b);
    assert(e.len() == 0);
    assert(e.push(a).push(b).drop_last() =~= e.push(a));
    assert(m1[r] == e.push(a));
    assert(m2[r] == e.push(a).push(b));
    assert(popped(m2, r) =~= m1);
    assert(e.push(a).drop_last() =~= e);
    assert(popped(popped(m2, r), r) =~= m.insert(r, e));
}

} // verus!
