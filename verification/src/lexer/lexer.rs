use vstd::prelude::*;
use vstd::utf8::is_ascii_chars;

use crate::text::str_chars;

verus! {

/// `c` is a 7-bit ASCII character.
pub open spec fn is_ascii_char(c: char) -> bool {
    '\0' <= c <= '\u{7f}'
}

/// `p` is a strict prefix of `w`.
pub open spec fn proper_prefix(p: Seq<char>, w: Seq<char>) -> bool {
    p.len() < w.len() && p.is_prefix_of(w)
}

/// The words of a trie after `w` has been inserted into one holding `words`.
///
/// A trie only records the words that end in a leaf: a word that is a prefix of
/// a stored word (or equal to one) changes nothing, and a stored word that is a
/// strict prefix of `w` stops being a word once `w` extends its path.
pub open spec fn inserted(words: Set<Seq<char>>, w: Seq<char>) -> Set<Seq<char>> {
    if exists|u: Seq<char>| #[trigger] words.contains(u) && w.is_prefix_of(u) {
        words
    } else {
        words.filter(|p: Seq<char>| !proper_prefix(p, w)).insert(w)
    }
}

/// A prefix tree over characters. Its words are the paths from the root to the
/// leaves.
pub struct Trie {
    children: Vec<(char, Trie)>,
    is_leaf: bool,
}

impl Trie {
    /// Well-formedness: a node is a leaf exactly when it has no children, no two
    /// children share a character, every edge is an ASCII character, and every
    /// child is well formed.
    pub closed spec fn wf(self) -> bool
        decreases self,
    {
        &&& self.is_leaf <==> self.children@.len() == 0
        &&& forall|i: int, j: int|
            0 <= i < j < self.children@.len() ==> #[trigger] self.children@[i].0
                != #[trigger] self.children@[j].0
        &&& forall|i: int|
            0 <= i < self.children@.len() ==> is_ascii_char(#[trigger] self.children@[i].0)
        &&& forall|i: int|
            0 <= i < self.children@.len() ==> (#[trigger] self.children@[i]).1.wf()
    }

    /// `w` is the path from this node to one of its leaves.
    pub closed spec fn has_word(self, w: Seq<char>) -> bool
        decreases self,
    {
        if w.len() == 0 {
            self.is_leaf
        } else {
            exists|i: int|
                0 <= i < self.children@.len() && (#[trigger] self.children@[i]).0 == w[0]
                    && self.children@[i].1.has_word(w.drop_first())
        }
    }
}

impl View for Trie {
    type V = Set<Seq<char>>;

    closed spec fn view(&self) -> Set<Seq<char>> {
        Set::new(|w: Seq<char>| self.has_word(w))
    }
}

impl Trie {
    /// An empty trie: a single leaf, whose only word is the empty one.
    pub fn new() -> (t: Trie)
        ensures
            t.wf(),
            t@ == Set::<Seq<char>>::empty().insert(Seq::<char>::empty()),
    {
        let t = Trie { children: Vec::new(), is_leaf: true };
        assert forall|w: Seq<char>| t.has_word(w) <==> w == Seq::<char>::empty() by {
            if w.len() == 0 {
                assert(w =~= Seq::<char>::empty());
            }
        }
        assert(t@ =~= Set::<Seq<char>>::empty().insert(Seq::<char>::empty()));
        t
    }

    /// Every well-formed trie has at least one word.
    proof fn lemma_has_some_word(self)
        requires
            self.wf(),
        ensures
            exists|w: Seq<char>| self.has_word(w),
        decreases self,
    {
        if !self.is_leaf {
            let e = self.children@[0];
            e.1.lemma_has_some_word();
            let v = choose|v: Seq<char>| e.1.has_word(v);
            let w = seq![e.0] + v;
            assert(w.drop_first() =~= v);
            assert(self.has_word(w));
        } else {
            assert(self.has_word(Seq::<char>::empty()));
        }
    }

    /// The words of this node that begin with `c`, with `c` removed.
    spec fn words_after(self, c: char) -> Set<Seq<char>> {
        Set::new(|y: Seq<char>| self.has_word(seq![c] + y))
    }

    /// A non-empty word is a word of this node exactly when its tail is a word
    /// after its first character.
    proof fn lemma_words_after(self, x: Seq<char>)
        requires
            x.len() > 0,
        ensures
            self.has_word(x) == self.words_after(x[0]).contains(x.drop_first()),
    {
        assert(x =~= seq![x[0]] + x.drop_first());
    }

    /// Some word of the node extends `w` exactly when some word after its first
    /// character extends the rest of `w`.
    proof fn lemma_extends(self, w: Seq<char>)
        requires
            w.len() > 0,
        ensures
            (exists|u: Seq<char>| #[trigger] self@.contains(u) && w.is_prefix_of(u)) == (exists|
                v: Seq<char>,
            |
                #[trigger] self.words_after(w[0]).contains(v) && w.drop_first().is_prefix_of(v)),
    {
        let c = w[0];
        let r = w.drop_first();
        let cw = self.words_after(c);
        if exists|u: Seq<char>| #[trigger] self@.contains(u) && w.is_prefix_of(u) {
            let u = choose|u: Seq<char>| #[trigger] self@.contains(u) && w.is_prefix_of(u);
            assert(u.len() > 0 && u[0] == c);
            let v = u.drop_first();
            self.lemma_words_after(u);
            assert(r =~= v.subrange(0, r.len() as int));
            assert(cw.contains(v));
        }
        if exists|v: Seq<char>| #[trigger] cw.contains(v) && r.is_prefix_of(v) {
            let v = choose|v: Seq<char>| #[trigger] cw.contains(v) && r.is_prefix_of(v);
            let u = seq![c] + v;
            assert(u.drop_first() =~= v);
            assert(w =~= seq![c] + r);
            assert(r =~= v.subrange(0, r.len() as int));
            assert(w =~= u.subrange(0, w.len() as int));
            self.lemma_words_after(u);
            assert(self@.contains(u));
        }
    }

    /// Two non-empty words with the same first character compare as their tails.
    proof fn lemma_same_head(x: Seq<char>, w: Seq<char>)
        requires
            x.len() > 0,
            w.len() > 0,
            x[0] == w[0],
        ensures
            proper_prefix(x, w) == proper_prefix(x.drop_first(), w.drop_first()),
            (x == w) == (x.drop_first() == w.drop_first()),
    {
        let y = x.drop_first();
        let r = w.drop_first();
        assert(x =~= seq![x[0]] + y);
        assert(w =~= seq![w[0]] + r);
        if proper_prefix(x, w) {
            assert(y =~= r.subrange(0, y.len() as int));
        }
        if proper_prefix(y, r) {
            assert(x =~= w.subrange(0, x.len() as int));
        }
    }

    /// How the words of a node change when the subtree under the first
    /// character of `w` gains the rest of `w`: the node gains `w`.
    proof fn lemma_insert_step(old: Trie, new: Trie, w: Seq<char>)
        requires
            w.len() > 0,
            !new.is_leaf,
            old.is_leaf ==> old.children@.len() == 0,
            forall|x: Seq<char>|
                x.len() > 0 && x[0] != w[0] ==> (#[trigger] new.has_word(x) == old.has_word(x)),
            forall|x: Seq<char>|
                x.len() > 0 && x[0] == w[0] ==> (#[trigger] new.has_word(x) == inserted(
                    old.words_after(w[0]),
                    w.drop_first(),
                ).contains(x.drop_first())),
        ensures
            new@ == inserted(old@, w),
    {
        let c = w[0];
        let r = w.drop_first();
        let cw = old.words_after(c);
        old.lemma_extends(w);
        assert forall|x: Seq<char>| new.has_word(x) == #[trigger] inserted(old@, w).contains(x) by {
            if x.len() == 0 {
                assert(x.is_prefix_of(w));
                assert(proper_prefix(x, w));
                if old.is_leaf {
                    assert forall|u: Seq<char>| old.has_word(u) implies u.len() == 0 by {}
                    assert(!(exists|u: Seq<char>| #[trigger] old@.contains(u) && w.is_prefix_of(u)));
                }
            } else if x[0] != c {
                assert(!proper_prefix(x, w));
                assert(x != w);
            } else {
                Trie::lemma_same_head(x, w);
                old.lemma_words_after(x);
            }
        }
        assert(new@ =~= inserted(old@, w));
    }

    /// The words after `c` are the words of the child reached by `c`.
    proof fn lemma_after_child(self, k: int)
        requires
            self.wf(),
            0 <= k < self.children@.len(),
        ensures
            self.words_after(self.children@[k].0) == self.children@[k].1@,
    {
        let c = self.children@[k].0;
        assert forall|y: Seq<char>| #[trigger] self.words_after(c).contains(y) == self.children@[k].1@.contains(y) by {
            assert((seq![c] + y).drop_first() =~= y);
        }
        assert(self.words_after(c) =~= self.children@[k].1@);
    }

    /// Without a child reached by `c`, no word begins with `c`.
    proof fn lemma_after_none(self, c: char)
        requires
            forall|j: int| 0 <= j < self.children@.len() ==> #[trigger] self.children@[j].0 != c,
        ensures
            self.words_after(c) == Set::<Seq<char>>::empty(),
    {
        assert(self.words_after(c) =~= Set::<Seq<char>>::empty());
    }

    /// Words beginning with `d` only depend on the children reached by `d`.
    proof fn lemma_after_same(a: Trie, b: Trie, d: char)
        requires
            forall|i: int|
                0 <= i < a.children@.len() && #[trigger] a.children@[i].0 == d ==> exists|j: int|
                    0 <= j < b.children@.len() && #[trigger] b.children@[j] == a.children@[i],
            forall|j: int|
                0 <= j < b.children@.len() && #[trigger] b.children@[j].0 == d ==> exists|i: int|
                    0 <= i < a.children@.len() && #[trigger] a.children@[i] == b.children@[j],
        ensures
            a.words_after(d) == b.words_after(d),
    {
        assert forall|y: Seq<char>| #[trigger] a.words_after(d).contains(y) == b.words_after(d).contains(y) by {
            let x = seq![d] + y;
            assert(x.drop_first() =~= y);
            if a.has_word(x) {
                let i = choose|i: int|
                    0 <= i < a.children@.len() && (#[trigger] a.children@[i]).0 == x[0]
                        && a.children@[i].1.has_word(x.drop_first());
                assert(a.children@[i].0 == d);
                let j = choose|j: int| 0 <= j < b.children@.len() && #[trigger] b.children@[j] == a.children@[i];
                assert(b.has_word(x));
            }
            if b.has_word(x) {
                let j = choose|j: int|
                    0 <= j < b.children@.len() && (#[trigger] b.children@[j]).0 == x[0]
                        && b.children@[j].1.has_word(x.drop_first());
                assert(b.children@[j].0 == d);
                let i = choose|i: int| 0 <= i < a.children@.len() && #[trigger] a.children@[i] == b.children@[j];
                assert(a.has_word(x));
            }
        }
        assert(a.words_after(d) =~= b.words_after(d));
    }

    /// Replacing the child reached by one character keeps the words after any other.
    proof fn lemma_update_same(old: Trie, new: Trie, k: int, e: (char, Trie), d: char)
        requires
            0 <= k < old.children@.len(),
            old.children@[k].0 == e.0,
            e.0 != d,
            new.children@ == old.children@.update(k, e),
        ensures
            new.words_after(d) == old.words_after(d),
    {
        assert forall|i: int|
            0 <= i < old.children@.len() && #[trigger] old.children@[i].0 == d implies exists|j: int|
                0 <= j < new.children@.len() && #[trigger] new.children@[j] == old.children@[i] by {
            assert(new.children@[i] == old.children@[i]);
        }
        assert forall|j: int|
            0 <= j < new.children@.len() && #[trigger] new.children@[j].0 == d implies exists|i: int|
                0 <= i < old.children@.len() && #[trigger] old.children@[i] == new.children@[j] by {
            assert(new.children@[j] == old.children@[j]);
        }
        Trie::lemma_after_same(old, new, d);
    }

    /// Adding a child reached by one character keeps the words after any other.
    proof fn lemma_push_same(old: Trie, new: Trie, e: (char, Trie), d: char)
        requires
            e.0 != d,
            new.children@ == old.children@.push(e),
        ensures
            new.words_after(d) == old.words_after(d),
    {
        assert forall|i: int|
            0 <= i < old.children@.len() && #[trigger] old.children@[i].0 == d implies exists|j: int|
                0 <= j < new.children@.len() && #[trigger] new.children@[j] == old.children@[i] by {
            assert(new.children@[i] == old.children@[i]);
        }
        assert forall|j: int|
            0 <= j < new.children@.len() && #[trigger] new.children@[j].0 == d implies exists|i: int|
                0 <= i < old.children@.len() && #[trigger] old.children@[i] == new.children@[j] by {
            assert(new.children@[j] == old.children@[j]);
        }
        Trie::lemma_after_same(old, new, d);
    }

    /// A fresh leaf and a node without words gain the same words.
    proof fn lemma_inserted_into_leaf(r: Seq<char>)
        ensures
            inserted(Set::<Seq<char>>::empty().insert(Seq::<char>::empty()), r) == inserted(
                Set::<Seq<char>>::empty(),
                r,
            ),
    {
        let leaf = Set::<Seq<char>>::empty().insert(Seq::<char>::empty());
        if r.len() == 0 {
            assert(r =~= Seq::<char>::empty());
            assert(leaf.contains(r) && r.is_prefix_of(r));
            assert(inserted(Set::<Seq<char>>::empty(), r) =~= leaf);
        } else {
            assert(proper_prefix(Seq::<char>::empty(), r));
            assert(inserted(leaf, r) =~= inserted(Set::<Seq<char>>::empty(), r));
        }
    }

    /// The premises of `lemma_insert_step`, from the words after each character.
    proof fn lemma_step_premises(old: Trie, new: Trie, w: Seq<char>)
        requires
            w.len() > 0,
            !new.is_leaf,
            old.is_leaf ==> old.children@.len() == 0,
            forall|d: char| d != w[0] ==> #[trigger] new.words_after(d) == old.words_after(d),
            new.words_after(w[0]) == inserted(old.words_after(w[0]), w.drop_first()),
        ensures
            new@ == inserted(old@, w),
    {
        assert forall|x: Seq<char>| x.len() > 0 && x[0] != w[0] implies (#[trigger] new.has_word(x)
            == old.has_word(x)) by {
            new.lemma_words_after(x);
            old.lemma_words_after(x);
            assert(new.words_after(x[0]) == old.words_after(x[0]));
        }
        assert forall|x: Seq<char>| x.len() > 0 && x[0] == w[0] implies (#[trigger] new.has_word(x)
            == inserted(old.words_after(w[0]), w.drop_first()).contains(x.drop_first())) by {
            new.lemma_words_after(x);
        }
        Trie::lemma_insert_step(old, new, w);
    }

    /// The index of the child reached by `c`, if there is one.
    fn find_child(&self, c: char) -> (r: Option<usize>)
        requires
            self.wf(),
        ensures
            match r {
                Some(k) => k < self.children@.len() && self.children@[k as int].0 == c,
                None => forall|j: int|
                    0 <= j < self.children@.len() ==> #[trigger] self.children@[j].0 != c,
            },
    {
        let mut k: usize = 0;
        while k < self.children.len()
            invariant
                k <= self.children@.len(),
                forall|j: int| 0 <= j < k ==> #[trigger] self.children@[j].0 != c,
            decreases self.children@.len() - k,
        {
            if self.children[k].0 == c {
                return Some(k);
            }
            k = k + 1;
        }
        None
    }
}

impl Trie {
    /// Inserts the characters of `w` from position `i` on.
    fn insert_at(&mut self, w: &Vec<char>, i: usize)
        requires
            old(self).wf(),
            i <= w@.len(),
            is_ascii_chars(w@),
        ensures
            final(self).wf(),
            final(self)@ == inserted(old(self)@, w@.skip(i as int)),
        decreases w@.len() - i,
    {
        let ghost old_self = *self;
        let ghost word = w@.skip(i as int);
        if i < w.len() {
            let c = w[i];
            proof {
                assert(word[0] == c);
                assert(word.drop_first() =~= w@.skip(i + 1));
            }
            let found = self.find_child(c);
            match found {
                Some(k) => {
                    let ghost before = self.children@;
                    let (c2, mut child) = self.children.remove(k);
                    proof {
                        old_self.lemma_after_child(k as int);
                    }
                    child.insert_at(w, i + 1);
                    self.children.insert(k, (c2, child));
                    proof {
                        assert(self.children@ =~= before.update(k as int, (c, child)));
                        self.lemma_after_child(k as int);
                        assert forall|d: char| d != c implies #[trigger] self.words_after(d)
                            == old_self.words_after(d) by {
                            Trie::lemma_update_same(old_self, *self, k as int, (c, child), d);
                        }
                        Trie::lemma_step_premises(old_self, *self, word);
                    }
                },
                None => {
                    let ghost before = self.children@;
                    let mut child = Trie::new();
                    proof {
                        old_self.lemma_after_none(c);
                    }
                    child.insert_at(w, i + 1);
                    self.children.push((c, child));
                    self.is_leaf = false;
                    proof {
                        assert(self.children@ =~= before.push((c, child)));
                        self.lemma_after_child(before.len() as int);
                        Trie::lemma_inserted_into_leaf(word.drop_first());
                        assert forall|d: char| d != c implies #[trigger] self.words_after(d)
                            == old_self.words_after(d) by {
                            Trie::lemma_push_same(old_self, *self, (c, child), d);
                        }
                        Trie::lemma_step_premises(old_self, *self, word);
                    }
                },
            }
        } else {
            proof {
                old_self.lemma_has_some_word();
                let u = choose|u: Seq<char>| old_self.has_word(u);
                assert(word.is_prefix_of(u));
                assert(old_self@.contains(u));
            }
        }
    }
}

/// The words of a trie built by inserting `words` in order into a fresh one.
pub open spec fn inserted_all(words: Seq<Seq<char>>) -> Set<Seq<char>>
    decreases words.len(),
{
    if words.len() == 0 {
        Set::<Seq<char>>::empty().insert(Seq::<char>::empty())
    } else {
        inserted(inserted_all(words.drop_last()), words.last())
    }
}

impl Trie {
    /// Inserts `text`: afterwards the trie holds the words of `inserted`.
    pub fn insert(&mut self, text: &str)
        requires
            old(self).wf(),
            text.is_ascii(),
        ensures
            final(self).wf(),
            final(self)@ == inserted(old(self)@, text@),
    {
        let w = str_chars(text);
        proof {
            assert(w@.skip(0) =~= w@);
        }
        self.insert_at(&w, 0);
    }

    /// Whether the characters of `w` from position `i` on are a word.
    fn contains_at(&self, w: &Vec<char>, i: usize) -> (r: bool)
        requires
            self.wf(),
            i <= w@.len(),
            !(exists|u: Seq<char>| #[trigger] self@.contains(u) && proper_prefix(w@.skip(i as int), u)),
        ensures
            r == self@.contains(w@.skip(i as int)),
        decreases w@.len() - i,
    {
        let ghost word = w@.skip(i as int);
        if i == w.len() {
            proof {
                assert(word =~= Seq::<char>::empty());
            }
            return self.is_leaf;
        }
        if self.is_leaf {
            return false;
        }
        let c = w[i];
        proof {
            assert(word[0] == c);
            assert(word.drop_first() =~= w@.skip(i + 1));
            self.lemma_words_after(word);
        }
        match self.find_child(c) {
            Some(k) => {
                let child = &self.children[k].1;
                proof {
                    self.lemma_after_child(k as int);
                    if exists|v: Seq<char>|
                        #[trigger] child@.contains(v) && proper_prefix(w@.skip(i + 1), v) {
                        let v = choose|v: Seq<char>|
                            #[trigger] child@.contains(v) && proper_prefix(w@.skip(i + 1), v);
                        let u = seq![c] + v;
                        self.lemma_words_after(u);
                        assert(u.drop_first() =~= v);
                        assert(u[0] == c);
                        Trie::lemma_same_head(word, u);
                        assert(self@.contains(u));
                    }
                }
                child.contains_at(w, i + 1)
            },
            None => {
                proof {
                    self.lemma_after_none(c);
                }
                false
            },
        }
    }

    /// Whether `text` is one of the words.
    ///
    /// Asking for a strict prefix of a word is left out: that walk ends on an
    /// inner node with nothing left to read.
    pub fn contains(&self, text: &str) -> (r: bool)
        requires
            self.wf(),
            !(exists|u: Seq<char>| #[trigger] self@.contains(u) && proper_prefix(text@, u)),
        ensures
            r == self@.contains(text@),
    {
        let w = str_chars(text);
        proof {
            assert(w@.skip(0) =~= w@);
        }
        self.contains_at(&w, 0)
    }

    /// A trie holding `value`, inserted in order.
    pub fn from(value: Vec<&str>) -> (t: Trie)
        requires
            forall|i: int| 0 <= i < value@.len() ==> (#[trigger] value@[i]).is_ascii(),
        ensures
            t.wf(),
            t@ == inserted_all(value@.map_values(|s: &str| s@)),
    {
        let mut trie = Trie::new();
        let ghost words = value@.map_values(|s: &str| s@);
        let mut k: usize = 0;
        while k < value.len()
            invariant
                k <= value@.len(),
                words == value@.map_values(|s: &str| s@),
                forall|i: int| 0 <= i < value@.len() ==> (#[trigger] value@[i]).is_ascii(),
                trie.wf(),
                trie@ == inserted_all(words.take(k as int)),
            decreases value@.len() - k,
        {
            trie.insert(value[k]);
            proof {
                assert(words.take(k + 1).drop_last() =~= words.take(k as int));
            }
            k = k + 1;
        }
        proof {
            assert(words.take(k as int) =~= words);
        }
        trie
    }
}

/// Two words that differ at a position both reach are unrelated by prefix.
proof fn lemma_differ_at(a: Seq<char>, b: Seq<char>, k: int)
    requires
        0 <= k < a.len(),
        k < b.len(),
        a[k] != b[k],
    ensures
        !a.is_prefix_of(b),
        !b.is_prefix_of(a),
{
    if a.is_prefix_of(b) {
        assert(a[k] == b.subrange(0, a.len() as int)[k]);
    }
    if b.is_prefix_of(a) {
        assert(b[k] == a.subrange(0, b.len() as int)[k]);
    }
}

/// Inserting a word unrelated by prefix to every stored word just adds it.
proof fn lemma_inserted_fresh(words: Set<Seq<char>>, w: Seq<char>)
    requires
        forall|u: Seq<char>|
            #[trigger] words.contains(u) ==> !w.is_prefix_of(u) && !u.is_prefix_of(w),
    ensures
        inserted(words, w) == words.insert(w),
{
    assert(inserted(words, w) =~= words.insert(w));
}

/// The words of the keyword trie.
pub open spec fn keyword_words() -> Set<Seq<char>> {
    set!["escreva"@, "imprima"@, "leia_texto"@, "leia_inteiro"@, "leia_numero"@, "var"@]
}

impl Trie {
    /// The trie of the lexer's keywords.
    pub fn keywords() -> (t: Trie)
        ensures
            t.wf(),
            t@ == keyword_words(),
    {
        let v = vec!["escreva", "imprima", "leia_texto", "leia_inteiro", "leia_numero", "var"];
        proof {
            reveal_strlit("escreva");
            reveal_strlit("imprima");
            reveal_strlit("leia_texto");
            reveal_strlit("leia_inteiro");
            reveal_strlit("leia_numero");
            reveal_strlit("var");
            let ws = v@.map_values(|s: &str| s@);
            let e = "escreva"@;
            let i = "imprima"@;
            let lt = "leia_texto"@;
            let li = "leia_inteiro"@;
            let ln = "leia_numero"@;
            let va = "var"@;
            assert(ws =~= seq![e, i, lt, li, ln, va]);
            let s0 = Set::<Seq<char>>::empty().insert(Seq::<char>::empty());
            assert(ws.take(1).drop_last() =~= Seq::<Seq<char>>::empty());
            assert(proper_prefix(Seq::<char>::empty(), e));
            assert(inserted(s0, e) =~= set![e]);
            assert(ws.take(2).drop_last() =~= ws.take(1));
            assert(ws.take(3).drop_last() =~= ws.take(2));
            assert(ws.take(4).drop_last() =~= ws.take(3));
            assert(ws.take(5).drop_last() =~= ws.take(4));
            assert(ws.drop_last() =~= ws.take(5));
            lemma_differ_at(i, e, 0);
            lemma_inserted_fresh(set![e], i);
            lemma_differ_at(lt, e, 0);
            lemma_differ_at(lt, i, 0);
            lemma_inserted_fresh(set![e, i], lt);
            lemma_differ_at(li, e, 0);
            lemma_differ_at(li, i, 0);
            lemma_differ_at(li, lt, 5);
            lemma_inserted_fresh(set![e, i, lt], li);
            lemma_differ_at(ln, e, 0);
            lemma_differ_at(ln, i, 0);
            lemma_differ_at(ln, lt, 5);
            lemma_differ_at(ln, li, 5);
            lemma_inserted_fresh(set![e, i, lt, li], ln);
            lemma_differ_at(va, e, 0);
            lemma_differ_at(va, i, 0);
            lemma_differ_at(va, lt, 0);
            lemma_differ_at(va, li, 0);
            lemma_differ_at(va, ln, 0);
            lemma_inserted_fresh(set![e, i, lt, li, ln], va);
            assert(inserted_all(ws.take(1).drop_last()) == s0);
            assert(ws.take(1).last() == e);
            assert(inserted_all(ws.take(1)) == set![e]);
            assert(inserted_all(ws.take(2)) == set![e].insert(i));
            assert(set![e].insert(i) =~= set![e, i]);
            assert(inserted_all(ws.take(3)) == set![e, i].insert(lt));
            assert(set![e, i].insert(lt) =~= set![e, i, lt]);
            assert(inserted_all(ws.take(4)) == set![e, i, lt].insert(li));
            assert(set![e, i, lt].insert(li) =~= set![e, i, lt, li]);
            assert(inserted_all(ws.take(5)) == set![e, i, lt, li].insert(ln));
            assert(set![e, i, lt, li].insert(ln) =~= set![e, i, lt, li, ln]);
            assert(inserted_all(ws) == set![e, i, lt, li, ln].insert(va));
            assert(inserted_all(ws) =~= keyword_words());
        }
        Trie::from(v)
    }
}

/// Inserting a word that no stored word extends makes it a word, and leaves
/// no stored word extending it, so that asking for it afterwards is allowed.
pub proof fn lemma_insert_then_contains(words: Set<Seq<char>>, w: Seq<char>)
    requires
        !(exists|u: Seq<char>| #[trigger] words.contains(u) && proper_prefix(w, u)),
    ensures
        inserted(words, w).contains(w),
        !(exists|u: Seq<char>| #[trigger] inserted(words, w).contains(u) && proper_prefix(w, u)),
{
    if exists|u: Seq<char>| #[trigger] words.contains(u) && w.is_prefix_of(u) {
        let u = choose|u: Seq<char>| #[trigger] words.contains(u) && w.is_prefix_of(u);
        assert(u =~= w);
    }
}

/// Inserting a word leaves every word that is neither a prefix of it nor
/// extends it as it was.
pub proof fn lemma_insert_keeps_unrelated(words: Set<Seq<char>>, w: Seq<char>, u: Seq<char>)
    requires
        !u.is_prefix_of(w),
        !w.is_prefix_of(u),
    ensures
        inserted(words, w).contains(u) == words.contains(u),
{
    assert(u != w);
}

/// A trie built by inserting `ws` into a fresh one holds only words of `ws`
/// and, perhaps, the empty word.
proof fn lemma_inserted_all_words(ws: Seq<Seq<char>>)
    ensures
        forall|u: Seq<char>| #[trigger] inserted_all(ws).contains(u) ==> u.len() == 0 || ws.contains(u),
    decreases ws.len(),
{
    if ws.len() > 0 {
        let prev = ws.drop_last();
        lemma_inserted_all_words(prev);
        assert forall|u: Seq<char>| #[trigger] inserted_all(ws).contains(u) implies u.len() == 0
            || ws.contains(u) by {
            if u == ws.last() {
                assert(ws[ws.len() - 1] == u);
            } else if inserted_all(prev).contains(u) && u.len() > 0 {
                let i = choose|i: int| 0 <= i < prev.len() && prev[i] == u;
                assert(ws[i] == u);
            }
        }
    }
}

/// A trie built by inserting the words `ws` in order into a fresh one holds a
/// non-empty text exactly when `ws` holds it, provided no word of `ws` extends
/// the text; and asking for the text is then allowed.
pub proof fn lemma_inserted_all_contains(ws: Seq<Seq<char>>, text: Seq<char>)
    requires
        text.len() > 0,
        forall|i: int| 0 <= i < ws.len() ==> !proper_prefix(text, #[trigger] ws[i]),
    ensures
        inserted_all(ws).contains(text) == ws.contains(text),
        !(exists|u: Seq<char>| #[trigger] inserted_all(ws).contains(u) && proper_prefix(text, u)),
    decreases ws.len(),
{
    if ws.len() == 0 {
        assert(!inserted_all(ws).contains(text));
    } else {
        let prev = ws.drop_last();
        let w = ws.last();
        let old_words = inserted_all(prev);
        assert forall|i: int| 0 <= i < prev.len() implies !proper_prefix(text, #[trigger] prev[i]) by {
            assert(prev[i] == ws[i]);
        }
        lemma_inserted_all_contains(prev, text);
        lemma_inserted_all_words(prev);
        assert(!proper_prefix(text, ws[ws.len() - 1]));
        assert(ws.contains(text) == (prev.contains(text) || w == text)) by {
            if ws.contains(text) {
                let i = choose|i: int| 0 <= i < ws.len() && ws[i] == text;
                if i < ws.len() - 1 {
                    assert(prev[i] == text);
                }
            }
            if prev.contains(text) {
                let i = choose|i: int| 0 <= i < prev.len() && prev[i] == text;
                assert(ws[i] == text);
            }
            if w == text {
                assert(ws[ws.len() - 1] == text);
            }
        }
        if exists|u: Seq<char>| #[trigger] old_words.contains(u) && w.is_prefix_of(u) {
            let u = choose|u: Seq<char>| #[trigger] old_words.contains(u) && w.is_prefix_of(u);
            if w == text {
                assert(u.len() != 0);
                assert(prev.contains(u));
                let i = choose|i: int| 0 <= i < prev.len() && prev[i] == u;
                assert(!proper_prefix(text, prev[i]));
                assert(u =~= text);
            }
        }
    }
}

} // verus!
