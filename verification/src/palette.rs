use vstd::prelude::*;

verus! {

/// Position of the first entry with the given key, or -1 if none.
pub open spec fn find_key(s: Seq<(char, [u8; 4])>, c: char) -> int
    decreases s.len(),
{
    if s.len() == 0 {
        -1
    } else if s[0].0 == c {
        0
    } else {
        let r = find_key(s.drop_first(), c);
        if r < 0 {
            -1
        } else {
            r + 1
        }
    }
}

pub proof fn lemma_find_key_bounds(s: Seq<(char, [u8; 4])>, c: char)
    ensures
        find_key(s, c) == -1 || (0 <= find_key(s, c) < s.len() && s[find_key(s, c)].0 == c),
        (find_key(s, c) == -1) == (forall|i: int| 0 <= i < s.len() ==> s[i].0 != c),
        forall|i: int| 0 <= i < find_key(s, c) ==> s[i].0 != c,
    decreases s.len(),
{
    if s.len() > 0 && s[0].0 != c {
        lemma_find_key_bounds(s.drop_first(), c);
        assert(forall|i: int| 1 <= i < s.len() ==> s[i] == s.drop_first()[i - 1]);
    }
}

/// If everything before `i` misses the key and `i` hits it, `i` is the
/// first hit.
pub proof fn lemma_find_key_at(s: Seq<(char, [u8; 4])>, c: char, i: int)
    requires
        0 <= i < s.len(),
        s[i].0 == c,
        forall|k: int| 0 <= k < i ==> s[k].0 != c,
    ensures
        find_key(s, c) == i,
    decreases i,
{
    if i > 0 {
        assert(forall|k: int| 0 <= k < s.len() - 1 ==> s.drop_first()[k] == s[k + 1]);
        lemma_find_key_at(s.drop_first(), c, i - 1);
    }
}

/// The symbol-to-colour table: an association list with unique keys,
/// giving each symbol of the alphabet its 4-channel colour.
#[derive(Clone, Debug)]
pub struct Palette {
    pub entries: Vec<(char, [u8; 4])>,
}

impl Palette {
    /// Unique keys: no symbol appears twice.
    pub open spec fn wf(self) -> bool {
        forall|i: int, j: int|
            0 <= i < j < self.entries@.len() ==> self.entries@[i].0 != self.entries@[j].0
    }

    pub open spec fn has(self, c: char) -> bool {
        find_key(self.entries@, c) >= 0
    }

    /// The colour of a symbol the palette holds.
    pub open spec fn color_of(self, c: char) -> [u8; 4] {
        self.entries@[find_key(self.entries@, c)].1
    }

    pub open spec fn spec_len(self) -> int {
        self.entries@.len() as int
    }

    pub fn new() -> (r: Palette)
        ensures
            r.wf(),
            r.entries@.len() == 0,
    {
        Palette { entries: Vec::new() }
    }

    pub fn len(&self) -> (r: usize)
        ensures
            r == self.spec_len(),
    {
        self.entries.len()
    }

    /// Looks a symbol up; None for a symbol the palette does not hold.
    pub fn get(&self, c: char) -> (r: Option<[u8; 4]>)
        ensures
            match r {
                Some(col) => self.has(c) && col == self.color_of(c),
                None => !self.has(c),
            },
    {
        proof {
            lemma_find_key_bounds(self.entries@, c);
        }
        let n = self.entries.len();
        for i in 0..n
            invariant
                n == self.entries@.len(),
                forall|k: int| 0 <= k < i ==> self.entries@[k].0 != c,
        {
            let entry = self.entries[i];
            if entry.0 == c {
                proof {
                    lemma_find_key_at(self.entries@, c, i as int);
                }
                return Some(entry.1);
            }
        }
        None
    }

    /// Inserts or replaces the colour of a symbol; every other entry is
    /// kept.
    pub fn insert(&mut self, c: char, color: [u8; 4])
        requires
            old(self).wf(),
            old(self).entries@.len() < usize::MAX,
        ensures
            final(self).wf(),
            final(self).has(c),
            final(self).color_of(c) == color,
            forall|d: char| d != c ==> #[trigger] final(self).has(d) == old(self).has(d),
            forall|d: char| d != c && old(self).has(d) ==> #[trigger] final(self).color_of(d)
                == old(self).color_of(d),
            final(self).entries@.len() <= old(self).entries@.len() + 1,
    {
        proof {
            lemma_find_key_bounds(self.entries@, c);
        }
        let n = self.entries.len();
        for i in 0..n
            invariant
                n == self.entries@.len(),
                self.wf(),
                *self == *old(self),
                forall|k: int| 0 <= k < i ==> self.entries@[k].0 != c,
        {
            if self.entries[i].0 == c {
                proof {
                    lemma_find_key_at(self.entries@, c, i as int);
                }
                let ghost before = self.entries@;
                self.entries[i] = (c, color);
                proof {
                    lemma_find_key_at(self.entries@, c, i as int);
                    assert forall|d: char| d != c implies #[trigger] self.has(d) == old(
                        self,
                    ).has(d) by {
                        lemma_find_key_same(before, self.entries@, d);
                    }
                    assert forall|d: char| d != c && old(self).has(d) implies #[trigger] self.color_of(
                        d,
                    ) == old(self).color_of(d) by {
                        lemma_find_key_same(before, self.entries@, d);
                    }
                }
                return ;
            }
        }
        let ghost before = self.entries@;
        self.entries.push((c, color));
        proof {
            lemma_find_key_bounds(before, c);
            lemma_find_key_at(self.entries@, c, before.len() as int);
            assert forall|d: char| d != c implies #[trigger] self.has(d) == old(self).has(d) by {
                lemma_find_key_push_other(before, c, color, d);
            }
            assert forall|d: char| d != c && old(self).has(d) implies #[trigger] self.color_of(d)
                == old(self).color_of(d) by {
                lemma_find_key_push_other(before, c, color, d);
            }
        }
    }

    /// The symbols the palette holds, in storage order.
    pub fn keys(&self) -> (r: Vec<char>)
        ensures
            r@.len() == self.entries@.len(),
            forall|i: int| 0 <= i < r@.len() ==> r@[i] == self.entries@[i].0,
    {
        let n = self.entries.len();
        let mut out: Vec<char> = Vec::new();
        for i in 0..n
            invariant
                n == self.entries@.len(),
                out@.len() == i,
                forall|k: int| 0 <= k < i ==> out@[k] == self.entries@[k].0,
        {
            out.push(self.entries[i].0);
        }
        out
    }
}

/// Entries with other keys keep their lookup when one entry's colour is
/// replaced in place.
proof fn lemma_find_key_same(a: Seq<(char, [u8; 4])>, b: Seq<(char, [u8; 4])>, d: char)
    requires
        a.len() == b.len(),
        forall|i: int| 0 <= i < a.len() && a[i].0 != d ==> b[i].0 != d,
        forall|i: int| 0 <= i < a.len() && a[i].0 == d ==> b[i] == a[i],
        forall|i: int| 0 <= i < a.len() && b[i].0 == d ==> a[i].0 == d,
    ensures
        find_key(b, d) == find_key(a, d),
        find_key(a, d) >= 0 ==> b[find_key(a, d)] == a[find_key(a, d)],
    decreases a.len(),
{
    if a.len() > 0 {
        if a[0].0 == d {
        } else {
            assert(forall|i: int| 0 <= i < a.len() - 1 ==> a.drop_first()[i] == a[i + 1]);
            assert(forall|i: int| 0 <= i < b.len() - 1 ==> b.drop_first()[i] == b[i + 1]);
            lemma_find_key_same(a.drop_first(), b.drop_first(), d);
            lemma_find_key_bounds(a.drop_first(), d);
            let r = find_key(a.drop_first(), d);
            if r >= 0 {
                assert(find_key(a, d) == r + 1);
                assert(b[r + 1] == b.drop_first()[r]);
                assert(a[r + 1] == a.drop_first()[r]);
            }
        }
    }
}

/// Pushing an entry with a new key leaves every other key's lookup as it
/// was.
proof fn lemma_find_key_push_other(a: Seq<(char, [u8; 4])>, c: char, color: [u8; 4], d: char)
    requires
        d != c,
    ensures
        find_key(a.push((c, color)), d) == find_key(a, d),
        find_key(a, d) >= 0 ==> a.push((c, color))[find_key(a, d)] == a[find_key(a, d)],
    decreases a.len(),
{
    lemma_find_key_bounds(a, d);
    let b = a.push((c, color));
    if a.len() == 0 {
        assert(b.len() == 1 && b[0].0 == c);
        assert(b.drop_first() =~= Seq::<(char, [u8; 4])>::empty());
        assert(find_key(b.drop_first(), d) == -1);
        assert(find_key(b, d) == -1);
    } else {
        assert(b[0] == a[0]);
        if a[0].0 == d {
            assert(find_key(a, d) == 0 && find_key(b, d) == 0);
        } else {
            assert(b.drop_first() =~= a.drop_first().push((c, color)));
            lemma_find_key_push_other(a.drop_first(), c, color, d);
            lemma_find_key_bounds(a.drop_first(), d);
            let r = find_key(a.drop_first(), d);
            if r >= 0 {
                assert(find_key(a, d) == r + 1);
                assert(b[r + 1] == b.drop_first()[r]);
                assert(a[r + 1] == a.drop_first()[r]);
            }
        }
    }
}

} // verus!
