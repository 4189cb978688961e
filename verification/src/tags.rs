//! Tags and sets of tags.

use crate::text::{chars_lt, chars_of, same_chars, seq_lt};
use vstd::prelude::*;

verus! {

/// A tag, as written between colons.
#[derive(Debug, PartialEq, Eq, PartialOrd, Ord, Hash)]
pub struct Tag(pub String);

impl Clone for Tag {
    fn clone(&self) -> (r: Tag)
        ensures
            r@ == self@,
    {
        Tag(self.0.clone())
    }
}

impl View for Tag {
    type V = Seq<char>;

    open spec fn view(&self) -> Seq<char> {
        self.0@
    }
}

impl Tag {
    /// The tag with the given text.
    pub fn new(s: &str) -> (t: Tag)
        ensures
            t@ == s@,
    {
        Tag(s.to_owned())
    }
}

/// The views of a sequence of tags.
pub open spec fn tags_view(tags: Seq<Tag>) -> Seq<Seq<char>> {
    Seq::new(tags.len(), |i: int| tags[i]@)
}

/// Whether each element comes before the next in the order of strings.
pub open spec fn ascending(s: Seq<Seq<char>>) -> bool {
    forall|i: int| 0 <= i && i + 1 < s.len() ==> seq_lt(#[trigger] s[i], s[i + 1])
}

/// `s` with `t` put in at its place in the order of strings, unless `s`
/// holds it already.
pub open spec fn sorted_insert(s: Seq<Seq<char>>, t: Seq<char>) -> Seq<Seq<char>>
    decreases s.len(),
{
    if s.len() == 0 {
        seq![t]
    } else if seq_lt(s[0], t) {
        seq![s[0]] + sorted_insert(s.drop_first(), t)
    } else if s[0] == t {
        s
    } else {
        seq![t] + s
    }
}

/// `acc` after each element of `items` was put in, first to last.
pub open spec fn sorted_insert_all(acc: Seq<Seq<char>>, items: Seq<Seq<char>>) -> Seq<Seq<char>>
    decreases items.len(),
{
    if items.len() == 0 {
        acc
    } else {
        sorted_insert_all(sorted_insert(acc, items[0]), items.drop_first())
    }
}

/// Of two different strings one comes before the other.
pub proof fn lemma_seq_lt_total(a: Seq<char>, b: Seq<char>)
    ensures
        a == b || seq_lt(a, b) || seq_lt(b, a),
    decreases a.len(),
{
    if b.len() == 0 {
        if a.len() == 0 {
            assert(a =~= b);
        }
    } else if a.len() == 0 {
    } else if a[0] != b[0] {
    } else {
        lemma_seq_lt_total(a.drop_first(), b.drop_first());
        if a.drop_first() == b.drop_first() {
            assert(a =~= seq![a[0]] + a.drop_first());
            assert(b =~= seq![b[0]] + b.drop_first());
        }
    }
}

/// Where the elements before `i` come before `t` and the one at `i` does
/// not, `t` goes in at `i`.
proof fn lemma_sorted_insert_at(s: Seq<Seq<char>>, t: Seq<char>, i: int)
    requires
        0 <= i <= s.len(),
        forall|k: int| 0 <= k < i ==> seq_lt(#[trigger] s[k], t),
        i < s.len() ==> !seq_lt(s[i], t),
    ensures
        sorted_insert(s, t) == if i < s.len() && s[i] == t {
            s
        } else {
            s.insert(i, t)
        },
    decreases i,
{
    if i == 0 {
        if s.len() == 0 {
            assert(s.insert(0, t) =~= seq![t]);
        } else if s[0] == t {
        } else {
            assert(s.insert(0, t) =~= seq![t] + s);
        }
    } else {
        let rest = s.drop_first();
        assert(seq_lt(s[0], t));
        assert forall|k: int| 0 <= k < i - 1 implies seq_lt(#[trigger] rest[k], t) by {
            assert(rest[k] == s[k + 1]);
        }
        lemma_sorted_insert_at(rest, t, i - 1);
        if i < s.len() && s[i] == t {
            assert(seq![s[0]] + rest =~= s);
        } else {
            assert(seq![s[0]] + rest.insert(i - 1, t) =~= s.insert(i, t));
        }
    }
}

/// A set of tags, held in the order of strings with no tag twice.
#[derive(Debug, PartialEq, Eq)]
pub struct TagSet {
    pub items: Vec<Tag>,
}

impl Clone for TagSet {
    fn clone(&self) -> (r: TagSet)
        ensures
            r@ == self@,
    {
        let mut items: Vec<Tag> = Vec::new();
        let mut i: usize = 0;
        while i < self.items.len()
            invariant
                i <= self.items@.len(),
                items@.len() == i,
                forall|k: int| 0 <= k < i ==> #[trigger] items@[k]@ == self.items@[k]@,
            decreases self.items@.len() - i,
        {
            items.push(self.items[i].clone());
            i = i + 1;
        }
        let r = TagSet { items };
        assert(r@ =~= self@);
        r
    }
}

impl View for TagSet {
    type V = Seq<Seq<char>>;

    open spec fn view(&self) -> Seq<Seq<char>> {
        tags_view(self.items@)
    }
}

impl TagSet {
    /// Whether the tags stand in ascending order, which leaves no room for
    /// one tag twice.
    pub open spec fn wf(&self) -> bool {
        ascending(self@)
    }

    /// The set without tags.
    pub fn new() -> (r: TagSet)
        ensures
            r@ == Seq::<Seq<char>>::empty(),
            r.wf(),
    {
        let r = TagSet { items: Vec::new() };
        assert(r@ =~= Seq::<Seq<char>>::empty());
        r
    }

    /// Whether the tags stand in ascending order.
    pub fn is_ascending(&self) -> (b: bool)
        ensures
            b == self.wf(),
    {
        let n = self.items.len();
        if n < 2 {
            return true;
        }
        let mut i: usize = 0;
        while i + 1 < n
            invariant
                n == self.items@.len(),
                i + 1 <= n,
                forall|k: int| 0 <= k && k + 1 <= i ==> seq_lt(#[trigger] self@[k], self@[k + 1]),
            decreases n - i,
        {
            let a = chars_of(self.items[i].0.as_str());
            let b = chars_of(self.items[i + 1].0.as_str());
            assert(a@ == self@[i as int] && b@ == self@[i + 1]);
            if !chars_lt(&a, &b) {
                return false;
            }
            i = i + 1;
        }
        true
    }

    /// Whether the set has no tags.
    pub fn is_empty(&self) -> (b: bool)
        ensures
            b == (self@.len() == 0),
    {
        self.items.len() == 0
    }

    /// The number of tags.
    pub fn len(&self) -> (n: usize)
        ensures
            n == self@.len(),
    {
        self.items.len()
    }

    /// Puts each of `tags` in at its place, first to last.
    pub fn insert_all(&mut self, tags: &Vec<Tag>)
        ensures
            final(self)@ == sorted_insert_all(old(self)@, tags_view(tags@)),
            old(self).wf() ==> final(self).wf(),
    {
        let ghost all = tags_view(tags@);
        let mut i: usize = 0;
        assert(all.subrange(0, all.len() as int) =~= all);
        while i < tags.len()
            invariant
                i <= tags@.len(),
                all == tags_view(tags@),
                old(self).wf() ==> self.wf(),
                sorted_insert_all(old(self)@, all) == sorted_insert_all(
                    self@,
                    all.subrange(i as int, all.len() as int),
                ),
            decreases tags@.len() - i,
        {
            proof {
                let rest = all.subrange(i as int, all.len() as int);
                assert(rest[0] == tags@[i as int]@);
                assert(rest.drop_first() =~= all.subrange(i + 1, all.len() as int));
            }
            self.insert(tags[i].clone());
            i = i + 1;
        }
    }

    /// Puts `tag` in at its place, unless the set holds it already.
    pub fn insert(&mut self, tag: Tag)
        ensures
            final(self)@ == sorted_insert(old(self)@, tag@),
            old(self).wf() ==> final(self).wf(),
    {
        let t = chars_of(tag.0.as_str());
        let n = self.items.len();
        let mut i: usize = 0;
        let mut found: bool = false;
        while i < n
            invariant_except_break
                !found,
            invariant
                n == self.items@.len(),
                *self == *old(self),
                t@ == tag@,
                i <= n,
                forall|k: int| 0 <= k < i ==> seq_lt(#[trigger] self@[k], t@),
            ensures
                i <= n,
                i < n ==> !seq_lt(self@[i as int], t@),
                found == (i < n && self@[i as int] == t@),
            decreases n - i,
        {
            let here = chars_of(self.items[i].0.as_str());
            assert(here@ == self@[i as int]);
            if !chars_lt(&here, &t) {
                found = same_chars(&here, &t);
                break ;
            }
            i = i + 1;
        }
        proof {
            lemma_sorted_insert_at(self@, t@, i as int);
        }
        if !found {
            let ghost before = self@;
            self.items.insert(i, tag);
            proof {
                assert(self@ =~= before.insert(i as int, t@));
                if ascending(before) {
                    assert forall|k: int| 0 <= k && k + 1 < self@.len() implies seq_lt(
                        #[trigger] self@[k],
                        self@[k + 1],
                    ) by {
                        if k + 1 < i {
                            assert(self@[k] == before[k] && self@[k + 1] == before[k + 1]);
                        } else if k + 1 == i {
                            assert(self@[k] == before[k]);
                        } else if k == i {
                            assert(self@[k + 1] == before[k]);
                            lemma_seq_lt_total(before[k], t@);
                        } else {
                            assert(self@[k] == before[k - 1] && self@[k + 1] == before[k]);
                        }
                    }
                }
            }
        }
    }
}

} // verus!
