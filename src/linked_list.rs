//! A singly linked list of `i64` keys behind a sentinel head node.
use vstd::prelude::*;

verus! {

/// The key of the sentinel node at the head of every list.
pub const SENTINEL: i64 = -1;

pub struct LinkedList {
    head: Box<LinkedListNode>,
}

pub struct LinkedListNode {
    key: i64,
    next: Option<Box<LinkedListNode>>,
}

impl LinkedListNode {
    /// The keys of this node and of the nodes after it.
    pub closed spec fn keys(&self) -> Seq<i64>
        decreases self,
    {
        match &self.next {
            None => seq![self.key],
            Some(following) => seq![self.key] + following.keys(),
        }
    }

    proof fn lemma_keys_nonempty(&self)
        ensures
            self.keys().len() >= 1,
            self.keys()[0] == self.key,
        decreases self,
    {
        match &self.next {
            None => {},
            Some(following) => {
                following.lemma_keys_nonempty();
            },
        }
    }

    /// Appends a node holding `key` after the last node.
    pub fn append(&mut self, key: i64)
        ensures
            final(self).keys() == old(self).keys().push(key),
        decreases old(self).keys().len(),
    {
        match &mut self.next {
            None => {
                let node = LinkedListNode { key, next: None };
                assert(node.keys() =~= seq![key]);
                assert(old(self).keys() =~= seq![old(self).key]);
                self.next = Some(Box::new(node));
                assert(self.keys() =~= old(self).keys().push(key));
            },
            Some(following_node) => {
                proof {
                    following_node.lemma_keys_nonempty();
                }
                following_node.append(key);
                assert(self.keys() =~= old(self).keys().push(key));
            },
        }
    }

    /// Whether this node or one after it holds `key`.
    pub fn has(&self, key: i64) -> (r: bool)
        ensures
            r == self.keys().contains(key),
        decreases self,
    {
        proof {
            self.lemma_keys_nonempty();
        }
        if self.key == key {
            return true;
        }
        match &self.next {
            None => {
                assert(!self.keys().contains(key)) by {
                    assert(self.keys() =~= seq![self.key]);
                }
                false
            },
            Some(following_node) => {
                let r = following_node.has(key);
                proof {
                    let ks = self.keys();
                    assert(ks =~= seq![self.key] + following_node.keys());
                    if r {
                        let j = choose|j: int| 0 <= j < following_node.keys().len()
                            && following_node.keys()[j] == key;
                        assert(ks[j + 1] == key);
                    }
                    if ks.contains(key) {
                        let j = choose|j: int| 0 <= j < ks.len() && ks[j] == key;
                        assert(following_node.keys()[j - 1] == key);
                    }
                }
                r
            },
        }
    }

    /// The number of nodes after this one.
    pub fn count(&self) -> (r: u32)
        requires
            self.keys().len() - 1 <= u32::MAX,
        ensures
            r == self.keys().len() - 1,
    {
        self._count(0)
    }

    /// `count` plus the number of nodes after this one.
    pub fn _count(&self, count: u32) -> (r: u32)
        requires
            count + self.keys().len() - 1 <= u32::MAX,
        ensures
            r == count + self.keys().len() - 1,
        decreases self,
    {
        match &self.next {
            None => count,
            Some(following_node) => {
                proof {
                    following_node.lemma_keys_nonempty();
                }
                following_node._count(count + 1)
            },
        }
    }
}

impl View for LinkedList {
    type V = Seq<i64>;

    /// The keys appended so far, in order; the sentinel is not one of them.
    closed spec fn view(&self) -> Seq<i64> {
        self.head.keys().drop_first()
    }
}

impl LinkedList {
    /// The head is the sentinel.
    pub closed spec fn wf(&self) -> bool {
        self.head.key == SENTINEL
    }

    /// A list with no key.
    pub fn new() -> (r: LinkedList)
        ensures
            r.wf(),
            r@ == Seq::<i64>::empty(),
    {
        let r = LinkedList { head: Box::new(LinkedListNode { key: SENTINEL, next: None }) };
        assert(r@ =~= Seq::<i64>::empty());
        r
    }

    /// Appends `key` at the end.
    pub fn append(&mut self, key: i64)
        requires
            old(self).wf(),
        ensures
            final(self).wf(),
            final(self)@ == old(self)@.push(key),
    {
        proof {
            self.head.lemma_keys_nonempty();
        }
        self.head.append(key);
        proof {
            self.head.lemma_keys_nonempty();
            assert(self@ =~= old(self)@.push(key));
        }
    }

    /// Whether `key` was appended; the sentinel's key counts as held too.
    pub fn has(&self, key: i64) -> (r: bool)
        requires
            self.wf(),
        ensures
            r == (key == SENTINEL || self@.contains(key)),
    {
        let r = self.head.has(key);
        proof {
            self.head.lemma_keys_nonempty();
            let ks = self.head.keys();
            assert(ks =~= seq![SENTINEL] + self@);
            if ks.contains(key) && key != SENTINEL {
                let j = choose|j: int| 0 <= j < ks.len() && ks[j] == key;
                assert(self@[j - 1] == key);
            }
            if self@.contains(key) {
                let j = choose|j: int| 0 <= j < self@.len() && self@[j] == key;
                assert(ks[j + 1] == key);
            }
            assert(ks[0] == SENTINEL);
        }
        r
    }

    /// The number of keys appended.
    pub fn count(&self) -> (r: u32)
        requires
            self@.len() <= u32::MAX,
        ensures
            r == self@.len(),
    {
        proof {
            self.head.lemma_keys_nonempty();
        }
        self.head.count()
    }
}

} // verus!
