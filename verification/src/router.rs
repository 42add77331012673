//! The routing table: which mailbox serves a JID.
//!
//! The table maps full JIDs to mailbox handles. Registering a JID that is
//! already registered replaces its mailbox: the previous one is no longer
//! bound and receives nothing further.

use vstd::prelude::*;

use crate::jid::{Jid, JidModel};

verus! {

/// A registration or deregistration, as the router consumes them.
pub enum ManagementCommand {
    Register(Jid, u64),
    Unregister(Jid),
}

/// The mailbox bound to a JID, if any: the first binding wins.
pub open spec fn table_lookup(entries: Seq<(JidModel, int)>, j: JidModel) -> Option<int>
    decreases entries.len(),
{
    if entries.len() == 0 {
        None
    } else if entries[0].0 == j {
        Some(entries[0].1)
    } else {
        table_lookup(entries.drop_first(), j)
    }
}

/// The table after binding `j` to `m`: an existing binding is replaced
/// in place, a missing one is appended.
pub open spec fn table_set(entries: Seq<(JidModel, int)>, j: JidModel, m: int) -> Seq<
    (JidModel, int),
>
    decreases entries.len(),
{
    if entries.len() == 0 {
        seq![(j, m)]
    } else if entries[0].0 == j {
        seq![(j, m)] + entries.drop_first()
    } else {
        seq![entries[0]] + table_set(entries.drop_first(), j, m)
    }
}

/// The table after removing `j`'s binding.
pub open spec fn table_remove(entries: Seq<(JidModel, int)>, j: JidModel) -> Seq<(JidModel, int)>
    decreases entries.len(),
{
    if entries.len() == 0 {
        Seq::empty()
    } else if entries[0].0 == j {
        entries.drop_first()
    } else {
        seq![entries[0]] + table_remove(entries.drop_first(), j)
    }
}

/// Registering replaces the previous binding: afterwards the JID routes
/// to the new mailbox, whatever it routed to before.
pub proof fn lemma_register_replaces(entries: Seq<(JidModel, int)>, j: JidModel, m: int)
    ensures
        table_lookup(table_set(entries, j, m), j) == Some(m),
    decreases entries.len(),
{
    if entries.len() == 0 {
    } else if entries[0].0 == j {
        assert(table_set(entries, j, m)[0] == (j, m));
    } else {
        lemma_register_replaces(entries.drop_first(), j, m);
        assert(table_set(entries, j, m)[0] == entries[0]);
        assert(table_set(entries, j, m).drop_first() =~= table_set(entries.drop_first(), j, m));
    }
}

/// A registration leaves every other JID's route unchanged.
pub proof fn lemma_register_preserves_others(
    entries: Seq<(JidModel, int)>,
    j: JidModel,
    m: int,
    other: JidModel,
)
    requires
        other != j,
    ensures
        table_lookup(table_set(entries, j, m), other) == table_lookup(entries, other),
    decreases entries.len(),
{
    if entries.len() == 0 {
        assert(table_set(entries, j, m) =~= seq![(j, m)]);
        assert(table_set(entries, j, m)[0] == (j, m));
        assert(table_set(entries, j, m).drop_first() =~= Seq::<(JidModel, int)>::empty());
        assert(table_set(entries, j, m)[0].0 == j);
        assert(j != other);
        assert(table_lookup(table_set(entries, j, m).drop_first(), other) is None);
        assert(table_lookup(table_set(entries, j, m), other) is None);
        assert(table_lookup(entries, other) is None);
    } else if entries[0].0 == j {
        assert(table_set(entries, j, m)[0] == (j, m));
        assert(table_set(entries, j, m).drop_first() =~= entries.drop_first());
    } else {
        lemma_register_preserves_others(entries.drop_first(), j, m, other);
        assert(table_set(entries, j, m)[0] == entries[0]);
        assert(table_set(entries, j, m).drop_first() =~= table_set(entries.drop_first(), j, m));
    }
}

/// The routing table.
pub struct RouterTable {
    entries: Vec<(Jid, u64)>,
}

impl View for RouterTable {
    type V = Seq<(JidModel, int)>;

    closed spec fn view(&self) -> Seq<(JidModel, int)> {
        Seq::new(self.entries@.len(), |i: int| (self.entries@[i].0@, self.entries@[i].1 as int))
    }
}

impl RouterTable {
    /// An empty table.
    pub fn new() -> (r: RouterTable)
        ensures
            r@ == Seq::<(JidModel, int)>::empty(),
    {
        let r = RouterTable { entries: Vec::new() };
        proof {
            assert(r@ =~= Seq::<(JidModel, int)>::empty());
        }
        r
    }

    /// The mailbox bound to the JID, if any.
    pub fn lookup(&self, j: &Jid) -> (r: Option<u64>)
        ensures
            match r {
                Some(m) => table_lookup(self@, j@) == Some(m as int),
                None => table_lookup(self@, j@) is None,
            },
    {
        let n = self.entries.len();
        proof {
            assert(self@.skip(0) =~= self@);
        }
        for i in 0..n
            invariant
                n == self.entries.len(),
                table_lookup(self@, j@) == table_lookup(self@.skip(i as int), j@),
        {
            proof {
                assert(self@.skip(i as int)[0] == self@[i as int]);
                assert(self@.skip(i as int).drop_first() =~= self@.skip(i + 1));
            }
            if &self.entries[i].0 == j {
                return Some(self.entries[i].1);
            }
        }
        proof {
            assert(self@.skip(n as int) =~= Seq::<(JidModel, int)>::empty());
        }
        None
    }

    /// Binds the JID to the mailbox, replacing any previous binding.
    pub fn register(&mut self, j: Jid, mailbox: u64)
        ensures
            final(self)@ == table_set(old(self)@, j@, mailbox as int),
            table_lookup(final(self)@, j@) == Some(mailbox as int),
    {
        let ghost orig = self@;
        let n = self.entries.len();
        proof {
            assert(orig.skip(0) =~= orig);
            assert(orig.take(0) =~= Seq::<(JidModel, int)>::empty());
            assert(orig.take(0) + table_set(orig.skip(0), j@, mailbox as int) =~= table_set(
                orig,
                j@,
                mailbox as int,
            ));
        }
        for i in 0..n
            invariant
                n == self.entries.len(),
                orig == self@,
                orig == old(self)@,
                table_set(orig, j@, mailbox as int) == orig.take(i as int) + table_set(
                    orig.skip(i as int),
                    j@,
                    mailbox as int,
                ),
                forall|k: int| 0 <= k < i ==> (#[trigger] orig[k]).0 != j@,
        {
            proof {
                assert(orig.skip(i as int)[0] == orig[i as int]);
                assert(orig.skip(i as int).drop_first() =~= orig.skip(i + 1));
                assert(orig.take(i as int).push(orig[i as int]) =~= orig.take(i + 1));
            }
            if &self.entries[i].0 == &j {
                self.entries[i] = (j, mailbox);
                proof {
                    let updated = Seq::new(
                        self.entries@.len(),
                        |k: int| (self.entries@[k].0@, self.entries@[k].1 as int),
                    );
                    assert(updated[i as int].0 == orig[i as int].0);
                    assert(seq![updated[i as int]] + orig.skip(i as int).drop_first()
                        =~= updated.skip(i as int));
                    assert(orig.take(i as int) + updated.skip(i as int) =~= updated);
                    assert(self@ == updated);
                    assert(self@ =~= table_set(orig, updated[i as int].0, mailbox as int));
                    lemma_register_replaces(orig, updated[i as int].0, mailbox as int);
                }
                return ;
            }
            proof {
                assert(seq![orig[i as int]] + table_set(orig.skip(i + 1), j@, mailbox as int)
                    =~= orig.take(i + 1).skip(i as int) + table_set(
                    orig.skip(i + 1),
                    j@,
                    mailbox as int,
                )) by {
                    assert(seq![orig[i as int]] =~= orig.take(i + 1).skip(i as int));
                }
                assert(orig.take(i as int) + (orig.take(i + 1).skip(i as int) + table_set(
                    orig.skip(i + 1),
                    j@,
                    mailbox as int,
                )) =~= orig.take(i + 1) + table_set(orig.skip(i + 1), j@, mailbox as int));
            }
        }
        proof {
            assert(orig.skip(n as int) =~= Seq::<(JidModel, int)>::empty());
        }
        let ghost jm = j@;
        self.entries.push((j, mailbox));
        proof {
            let updated = Seq::new(
                self.entries@.len(),
                |k: int| (self.entries@[k].0@, self.entries@[k].1 as int),
            );
            assert(orig.take(n as int) =~= orig);
            assert(self@ == updated);
            assert(updated =~= orig + seq![(jm, mailbox as int)]);
            assert(self@ =~= table_set(orig, jm, mailbox as int));
            lemma_register_replaces(orig, jm, mailbox as int);
        }
    }

    /// Applies one management command.
    pub fn apply(&mut self, command: ManagementCommand)
        ensures
            match command {
                ManagementCommand::Register(j, m) => final(self)@ == table_set(
                    old(self)@,
                    j@,
                    m as int,
                ),
                ManagementCommand::Unregister(j) => final(self)@ == table_remove(old(self)@, j@),
            },
    {
        match command {
            ManagementCommand::Register(j, m) => self.register(j, m),
            ManagementCommand::Unregister(j) => self.unregister(&j),
        }
    }

    /// Removes the JID's binding, if any.
    pub fn unregister(&mut self, j: &Jid)
        ensures
            final(self)@ == table_remove(old(self)@, j@),
    {
        let ghost orig = self@;
        let n = self.entries.len();
        proof {
            assert(orig.skip(0) =~= orig);
            assert(orig.take(0) =~= Seq::<(JidModel, int)>::empty());
            assert(orig.take(0) + table_remove(orig.skip(0), j@) =~= table_remove(orig, j@));
        }
        for i in 0..n
            invariant
                n == self.entries.len(),
                orig == self@,
                orig == old(self)@,
                table_remove(orig, j@) == orig.take(i as int) + table_remove(
                    orig.skip(i as int),
                    j@,
                ),
                forall|k: int| 0 <= k < i ==> (#[trigger] orig[k]).0 != j@,
        {
            proof {
                assert(orig.skip(i as int)[0] == orig[i as int]);
                assert(orig.skip(i as int).drop_first() =~= orig.skip(i + 1));
                assert(orig.take(i as int).push(orig[i as int]) =~= orig.take(i + 1));
            }
            if &self.entries[i].0 == j {
                let _ = self.entries.remove(i);
                proof {
                    let updated = Seq::new(
                        self.entries@.len(),
                        |k: int| (self.entries@[k].0@, self.entries@[k].1 as int),
                    );
                    assert(self@ == updated);
                    assert(orig.take(i as int) + orig.skip(i as int).drop_first() =~= updated);
                    assert(self@ =~= table_remove(orig, j@));
                }
                return ;
            }
            proof {
                assert(seq![orig[i as int]] + table_remove(orig.skip(i + 1), j@) =~= orig.take(
                    i + 1,
                ).skip(i as int) + table_remove(orig.skip(i + 1), j@)) by {
                    assert(seq![orig[i as int]] =~= orig.take(i + 1).skip(i as int));
                }
                assert(orig.take(i as int) + (orig.take(i + 1).skip(i as int) + table_remove(
                    orig.skip(i + 1),
                    j@,
                )) =~= orig.take(i + 1) + table_remove(orig.skip(i + 1), j@));
            }
        }
        proof {
            assert(orig.skip(n as int) =~= Seq::<(JidModel, int)>::empty());
            assert(orig.take(n as int) + table_remove(orig.skip(n as int), j@) =~= orig);
        }
    }
}

} // verus!
