use vstd::prelude::*;
use crate::text::{chars_eq, chars_to_string, str_to_chars};

verus! {

/// `a` sorts before `b`: comparing character by character, by code point, with a proper
/// prefix first. (On UTF-8 text this is the order of `String`.)
pub open spec fn text_lt(a: Seq<char>, b: Seq<char>) -> bool
    decreases a.len(),
{
    if a.len() == 0 {
        b.len() > 0
    } else if b.len() == 0 {
        false
    } else if a[0] != b[0] {
        (a[0] as u32) < (b[0] as u32)
    } else {
        text_lt(a.drop_first(), b.drop_first())
    }
}

/// Whether `a` sorts before `b`.
pub fn chars_lt(a: &[char], b: &[char]) -> (r: bool)
    ensures
        r == text_lt(a@, b@),
{
    let mut i: usize = 0;
    assert(a@.skip(0) =~= a@);
    assert(b@.skip(0) =~= b@);
    while i < a.len() && i < b.len()
        invariant
            i <= a@.len(),
            i <= b@.len(),
            text_lt(a@, b@) == text_lt(a@.skip(i as int), b@.skip(i as int)),
        decreases a@.len() - i,
    {
        let x = a[i];
        let y = b[i];
        assert(a@.skip(i as int)[0] == x);
        assert(b@.skip(i as int)[0] == y);
        if x != y {
            return (x as u32) < (y as u32);
        }
        assert(a@.skip(i as int).drop_first() =~= a@.skip(i + 1));
        assert(b@.skip(i as int).drop_first() =~= b@.skip(i + 1));
        i = i + 1;
    }
    b.len() > i
}

/// The pieces of `s` between `/` characters, without their ending piece, and that ending
/// piece.
pub open spec fn parts_acc(s: Seq<char>) -> (Seq<Seq<char>>, Seq<char>)
    decreases s.len(),
{
    if s.len() == 0 {
        (Seq::empty(), Seq::empty())
    } else {
        let (done, cur) = parts_acc(s.drop_last());
        if s.last() == '/' {
            (
                if cur.len() > 0 {
                    done.push(cur)
                } else {
                    done
                },
                Seq::empty(),
            )
        } else {
            (done, cur.push(s.last()))
        }
    }
}

/// The non-empty pieces of `s` between `/` characters, in order.
pub open spec fn slash_parts(s: Seq<char>) -> Seq<Seq<char>> {
    let (done, cur) = parts_acc(s);
    if cur.len() > 0 {
        done.push(cur)
    } else {
        done
    }
}

/// The texts of character vectors.
pub open spec fn parts_view(v: Seq<Vec<char>>) -> Seq<Seq<char>> {
    v.map_values(|x: Vec<char>| x@)
}

/// The non-empty pieces of `s` between `/` characters.
pub fn slash_parts_exec(s: &[char]) -> (out: Vec<Vec<char>>)
    ensures
        parts_view(out@) == slash_parts(s@),
{
    let mut done: Vec<Vec<char>> = Vec::new();
    let mut cur: Vec<char> = Vec::new();
    let mut i: usize = 0;
    while i < s.len()
        invariant
            i <= s@.len(),
            (parts_view(done@), cur@) == parts_acc(s@.take(i as int)),
        decreases s@.len() - i,
    {
        assert(s@.take(i + 1).drop_last() =~= s@.take(i as int));
        if s[i] == '/' {
            if cur.len() > 0 {
                let piece = cur;
                done.push(piece);
                assert(parts_view(done@) =~= parts_view(done@.drop_last()).push(piece@));
                cur = Vec::new();
            } else {
                cur = Vec::new();
            }
        } else {
            cur.push(s[i]);
        }
        i = i + 1;
    }
    assert(s@.take(i as int) =~= s@);
    if cur.len() > 0 {
        let piece = cur;
        done.push(piece);
        assert(parts_view(done@) =~= parts_view(done@.drop_last()).push(piece@));
    }
    done
}

/// A tree of names split at `/`: each child is keyed by one piece, and a node is a leaf
/// when a whole name ends there.
pub struct TreeV {
    pub is_leaf: bool,
    pub children: Seq<(Seq<char>, TreeV)>,
}

/// The tree with no names.
pub open spec fn empty_tree() -> TreeV {
    TreeV { is_leaf: false, children: Seq::empty() }
}

/// The first position at or after `i` of the child keyed `p`.
pub open spec fn find_child(cs: Seq<(Seq<char>, TreeV)>, p: Seq<char>, i: int) -> Option<int>
    decreases cs.len() - i,
{
    if i < 0 || i >= cs.len() {
        None
    } else if cs[i].0 == p {
        Some(i)
    } else {
        find_child(cs, p, i + 1)
    }
}

/// The first position at or after `i` whose key sorts after `p`, or the end.
pub open spec fn insert_pos(cs: Seq<(Seq<char>, TreeV)>, p: Seq<char>, i: int) -> int
    decreases cs.len() - i,
{
    if i < 0 || i >= cs.len() {
        cs.len() as int
    } else if text_lt(p, cs[i].0) {
        i
    } else {
        insert_pos(cs, p, i + 1)
    }
}

/// The tree with the name made of `parts` added: missing nodes are created in key order,
/// and the node where the name ends becomes a leaf.
pub open spec fn tree_insert(t: TreeV, parts: Seq<Seq<char>>) -> TreeV
    decreases parts.len(),
{
    if parts.len() == 0 {
        TreeV { is_leaf: true, ..t }
    } else {
        let p = parts[0];
        match find_child(t.children, p, 0) {
            Some(i) => TreeV {
                children: t.children.update(
                    i,
                    (p, tree_insert(t.children[i].1, parts.drop_first())),
                ),
                ..t
            },
            None => TreeV {
                children: t.children.insert(
                    insert_pos(t.children, p, 0),
                    (p, tree_insert(empty_tree(), parts.drop_first())),
                ),
                ..t
            },
        }
    }
}

/// A tree of branch names split at `/`, children in key order.
pub struct SlashTree {
    pub is_leaf: bool,
    pub children: Vec<(String, SlashTree)>,
}

/// The value of a tree.
pub open spec fn tree_view(t: SlashTree) -> TreeV
    decreases t,
{
    TreeV {
        is_leaf: t.is_leaf,
        children: t.children@.map(
            |i: int, c: (String, SlashTree)|
                if 0 <= i < t.children@.len() && c == t.children@[i] {
                    (c.0@, tree_view(c.1))
                } else {
                    (c.0@, empty_tree())
                },
        ),
    }
}

/// The value of a tree's child is the child's key and value.
pub proof fn lemma_tree_view_child(t: SlashTree, i: int)
    requires
        0 <= i < t.children@.len(),
    ensures
        tree_view(t).children[i] == (t.children@[i].0@, tree_view(t.children@[i].1)),
        tree_view(t).children.len() == t.children@.len(),
{
}

impl SlashTree {
    /// The tree with no names.
    pub fn new() -> (t: SlashTree)
        ensures
            tree_view(t) == empty_tree(),
    {
        let t = SlashTree { is_leaf: false, children: Vec::new() };
        assert(tree_view(t).children =~= Seq::<(Seq<char>, TreeV)>::empty());
        t
    }

    fn find_child_exec(&self, p: &[char]) -> (r: Option<usize>)
        ensures
            match r {
                Some(i) => find_child(tree_view(*self).children, p@, 0) == Some(i as int) && i
                    < self.children@.len(),
                None => find_child(tree_view(*self).children, p@, 0) is None,
            },
    {
        let ghost cs = tree_view(*self).children;
        let mut i: usize = 0;
        while i < self.children.len()
            invariant
                i <= self.children@.len(),
                cs == tree_view(*self).children,
                cs.len() == self.children@.len(),
                find_child(cs, p@, 0) == find_child(cs, p@, i as int),
            decreases self.children@.len() - i,
        {
            proof {
                lemma_tree_view_child(*self, i as int);
            }
            let key = str_to_chars(self.children[i].0.as_str());
            if chars_eq(&key, p) {
                return Some(i);
            }
            i = i + 1;
        }
        None
    }

    fn insert_pos_exec(&self, p: &[char]) -> (r: usize)
        ensures
            r as int == insert_pos(tree_view(*self).children, p@, 0),
            r <= self.children@.len(),
    {
        let ghost cs = tree_view(*self).children;
        let mut i: usize = 0;
        while i < self.children.len()
            invariant
                i <= self.children@.len(),
                cs == tree_view(*self).children,
                cs.len() == self.children@.len(),
                insert_pos(cs, p@, 0) == insert_pos(cs, p@, i as int),
            decreases self.children@.len() - i,
        {
            proof {
                lemma_tree_view_child(*self, i as int);
            }
            let key = str_to_chars(self.children[i].0.as_str());
            if chars_lt(p, &key) {
                return i;
            }
            i = i + 1;
        }
        i
    }

    fn insert_parts(&mut self, parts: &Vec<Vec<char>>, k: usize)
        requires
            k <= parts@.len(),
        ensures
            tree_view(*final(self)) == tree_insert(
                tree_view(*old(self)),
                parts_view(parts@).skip(k as int),
            ),
        decreases parts@.len() - k,
    {
        let ghost t0 = tree_view(*self);
        let ghost rest = parts_view(parts@).skip(k as int);
        if k == parts.len() {
            self.is_leaf = true;
            assert(tree_view(*self).children =~= t0.children);
            return;
        }
        let p = &parts[k];
        assert(rest[0] == p@);
        assert(rest.drop_first() =~= parts_view(parts@).skip(k + 1));
        match self.find_child_exec(p) {
            Some(i) => {
                let (label, mut child) = self.children.remove(i);
                proof {
                    lemma_tree_view_child(*old(self), i as int);
                }
                let ghost c0 = tree_view(child);
                child.insert_parts(parts, k + 1);
                self.children.insert(i, (label, child));
                proof {
                    let want = t0.children.update(i as int, (p@, tree_insert(c0, rest.drop_first())));
                    assert(find_child(t0.children, p@, 0) == Some(i as int));
                    lemma_find_child_found(t0.children, p@, 0, i as int);
                    assert forall|j: int| 0 <= j < want.len() implies tree_view(*self).children[j]
                        == want[j] by {
                        lemma_tree_view_child(*self, j);
                        if j != i {
                            lemma_tree_view_child(*old(self), j);
                        }
                    }
                    assert(tree_view(*self).children =~= want);
                }
            },
            None => {
                let pos = self.insert_pos_exec(p);
                let mut child = SlashTree::new();
                child.insert_parts(parts, k + 1);
                let label = chars_to_string(p);
                self.children.insert(pos, (label, child));
                proof {
                    let want = t0.children.insert(
                        pos as int,
                        (p@, tree_insert(empty_tree(), rest.drop_first())),
                    );
                    assert forall|j: int| 0 <= j < want.len() implies tree_view(*self).children[j]
                        == want[j] by {
                        lemma_tree_view_child(*self, j);
                        if j < pos {
                            lemma_tree_view_child(*old(self), j);
                        } else if j > pos {
                            lemma_tree_view_child(*old(self), j - 1);
                        }
                    }
                    assert(tree_view(*self).children =~= want);
                }
            },
        }
    }

    /// Adds a branch name: the tree gains a path of nodes for its non-empty pieces between
    /// `/` characters, and the last one becomes a leaf.
    pub fn insert(&mut self, name: &str)
        ensures
            tree_view(*final(self)) == tree_insert(tree_view(*old(self)), slash_parts(name@)),
    {
        let chars = str_to_chars(name);
        let parts = slash_parts_exec(&chars);
        assert(parts_view(parts@).skip(0) =~= parts_view(parts@));
        self.insert_parts(&parts, 0);
    }
}

/// A name found among the children is at a valid position and carries that key.
pub proof fn lemma_find_child_found(cs: Seq<(Seq<char>, TreeV)>, p: Seq<char>, i: int, j: int)
    requires
        find_child(cs, p, i) == Some(j),
    ensures
        0 <= j < cs.len(),
        cs[j].0 == p,
    decreases cs.len() - i,
{
    if 0 <= i < cs.len() && cs[i].0 != p {
        lemma_find_child_found(cs, p, i + 1, j);
    }
}

/// The position where a new key goes lies within the children or at their end.
pub proof fn lemma_insert_pos_range(cs: Seq<(Seq<char>, TreeV)>, p: Seq<char>, i: int)
    requires
        0 <= i,
    ensures
        0 <= insert_pos(cs, p, i) <= cs.len(),
        i <= cs.len() ==> i <= insert_pos(cs, p, i),
    decreases cs.len() - i,
{
    if 0 <= i < cs.len() && !text_lt(p, cs[i].0) {
        lemma_insert_pos_range(cs, p, i + 1);
    }
}

} // verus!
