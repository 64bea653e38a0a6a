//! Participants and messages of a sequence diagram.
use vstd::prelude::*;

verus! {

/// How the shaft of a message arrow is drawn.
#[derive(Clone, Copy, Debug, PartialEq, Eq)]
pub enum LineStyle {
    Solid,
    Dotted,
}

/// How the head of a message arrow is drawn.
#[derive(Clone, Copy, Debug, PartialEq, Eq)]
pub enum ArrowHead {
    Arrow,
    Open,
    NoHead,
}

/// Shaft and head of a message arrow.
#[derive(Clone, Copy, Debug, PartialEq, Eq)]
pub struct ArrowType {
    pub line: LineStyle,
    pub head: ArrowHead,
}

impl ArrowType {
    /// `->>`: a solid line with an arrow head.
    pub fn solid_arrow() -> (a: ArrowType)
        ensures
            a == (ArrowType { line: LineStyle::Solid, head: ArrowHead::Arrow }),
    {
        ArrowType { line: LineStyle::Solid, head: ArrowHead::Arrow }
    }

    /// `-->>`: a dotted line with an arrow head.
    pub fn dotted_arrow() -> (a: ArrowType)
        ensures
            a == (ArrowType { line: LineStyle::Dotted, head: ArrowHead::Arrow }),
    {
        ArrowType { line: LineStyle::Dotted, head: ArrowHead::Arrow }
    }
}

/// A participant (lifeline) of a sequence diagram.
#[derive(Debug)]
pub struct Participant {
    pub id: String,
    pub label: String,
}

impl Participant {
    /// A participant whose label is its id.
    pub fn new(id: &str) -> (p: Participant)
        ensures
            p.id@ == id@,
            p.label@ == id@,
    {
        Participant { id: id.to_owned(), label: id.to_owned() }
    }

    /// A participant shown under an alias.
    pub fn with_label(id: &str, label: &str) -> (p: Participant)
        ensures
            p.id@ == id@,
            p.label@ == label@,
    {
        Participant { id: id.to_owned(), label: label.to_owned() }
    }
}

/// A message from one participant to another (or to itself).
#[derive(Debug)]
pub struct Message {
    pub from: String,
    pub to: String,
    pub label: String,
    pub arrow: ArrowType,
    pub depth: usize,
}

impl Message {
    /// A solid-arrow message at nesting depth 0.
    pub fn new(from: &str, to: &str, label: &str) -> (m: Message)
        ensures
            m.from@ == from@,
            m.to@ == to@,
            m.label@ == label@,
            m.arrow == (ArrowType { line: LineStyle::Solid, head: ArrowHead::Arrow }),
            m.depth == 0,
    {
        Message {
            from: from.to_owned(),
            to: to.to_owned(),
            label: label.to_owned(),
            arrow: ArrowType::solid_arrow(),
            depth: 0,
        }
    }

    /// The same message drawn with `arrow`.
    pub fn with_arrow(self, arrow: ArrowType) -> (m: Message)
        ensures
            m.from@ == self.from@,
            m.to@ == self.to@,
            m.label@ == self.label@,
            m.arrow == arrow,
            m.depth == self.depth,
    {
        Message { arrow, ..self }
    }
}

/// `ps[i]` has id `id`.
pub open spec fn has_id(ps: Seq<Participant>, id: Seq<char>, i: int) -> bool {
    0 <= i < ps.len() && ps[i].id@ == id
}

/// The position of the participant with id `id`.
pub open spec fn index_of(ps: Seq<Participant>, id: Seq<char>) -> Option<int> {
    if exists|i: int| has_id(ps, id, i) {
        Some(choose|i: int| has_id(ps, id, i))
    } else {
        None
    }
}

/// No two participants share an id.
pub open spec fn ids_distinct(ps: Seq<Participant>) -> bool {
    forall|i: int, j: int|
        0 <= i < ps.len() && 0 <= j < ps.len() && i != j ==> (#[trigger] ps[i]).id@ != (
        #[trigger] ps[j]).id@
}

/// Participants and messages, in the order they were added.
pub struct SequenceDatabase {
    participants: Vec<Participant>,
    messages: Vec<Message>,
}

impl SequenceDatabase {
    pub closed spec fn spec_participants(&self) -> Seq<Participant> {
        self.participants@
    }

    pub closed spec fn spec_messages(&self) -> Seq<Message> {
        self.messages@
    }

    /// Ids are distinct and every message joins two participants.
    pub open spec fn wf(&self) -> bool {
        &&& ids_distinct(self.spec_participants())
        &&& forall|k: int|
            0 <= k < self.spec_messages().len() ==> {
                &&& index_of(self.spec_participants(), (#[trigger] self.spec_messages()[k]).from@)
                    is Some
                &&& index_of(self.spec_participants(), self.spec_messages()[k].to@) is Some
            }
    }

    pub fn new() -> (db: SequenceDatabase)
        ensures
            db.wf(),
            db.spec_participants().len() == 0,
            db.spec_messages().len() == 0,
    {
        SequenceDatabase { participants: Vec::new(), messages: Vec::new() }
    }

    pub fn participants(&self) -> (ps: &Vec<Participant>)
        ensures
            ps@ == self.spec_participants(),
    {
        &self.participants
    }

    pub fn messages(&self) -> (ms: &Vec<Message>)
        ensures
            ms@ == self.spec_messages(),
    {
        &self.messages
    }

    pub fn participant_count(&self) -> (n: usize)
        ensures
            n == self.spec_participants().len(),
    {
        self.participants.len()
    }

    pub fn message_count(&self) -> (n: usize)
        ensures
            n == self.spec_messages().len(),
    {
        self.messages.len()
    }

    /// The position of the participant with id `id`.
    pub fn participant_index(&self, id: &String) -> (r: Option<usize>)
        requires
            ids_distinct(self.spec_participants()),
        ensures
            match r {
                Some(i) => index_of(self.spec_participants(), id@) == Some(i as int),
                None => index_of(self.spec_participants(), id@) is None,
            },
    {
        let ghost ps = self.participants@;
        let mut i: usize = 0;
        while i < self.participants.len()
            invariant
                i <= ps.len(),
                ps == self.participants@,
                ids_distinct(ps),
                forall|j: int| 0 <= j < i ==> !has_id(ps, id@, j),
            decreases ps.len() - i,
        {
            if self.participants[i].id == *id {
                assert(has_id(ps, id@, i as int));
                let ghost k = choose|k: int| has_id(ps, id@, k);
                assert(ps[k].id@ == ps[i as int].id@);
                assert(k == i);
                return Some(i);
            }
            i = i + 1;
        }
        None
    }

    /// Adds `p` unless a participant with its id is already there.
    pub fn add_participant(&mut self, p: Participant) -> (r: Result<(), crate::diagram::DiagramError>)
        requires
            old(self).wf(),
        ensures
            r is Ok,
            final(self).wf(),
            final(self).spec_messages() == old(self).spec_messages(),
            index_of(old(self).spec_participants(), p.id@) is Some
                ==> final(self).spec_participants() == old(self).spec_participants(),
            index_of(old(self).spec_participants(), p.id@) is None
                ==> final(self).spec_participants() == old(self).spec_participants().push(p),
    {
        match self.participant_index(&p.id) {
            Some(_) => {},
            None => {
                proof {
                    self.lemma_push_keeps(p);
                }
                self.participants.push(p);
            },
        }
        Ok(())
    }

    proof fn lemma_push_keeps(&self, p: Participant)
        requires
            self.wf(),
            index_of(self.participants@, p.id@) is None,
        ensures
            ids_distinct(self.participants@.push(p)),
            forall|id: Seq<char>|
                index_of(self.participants@, id) is Some ==> index_of(
                    self.participants@.push(p),
                    id,
                ) is Some,
    {
        let ps = self.participants@;
        let qs = ps.push(p);
        assert forall|i: int, j: int|
            0 <= i < qs.len() && 0 <= j < qs.len() && i != j implies (#[trigger] qs[i]).id@ != (
            #[trigger] qs[j]).id@ by {
            if i == ps.len() {
                assert(!has_id(ps, p.id@, j));
            } else if j == ps.len() {
                assert(!has_id(ps, p.id@, i));
            } else {
                assert(qs[i] == ps[i] && qs[j] == ps[j]);
            }
        }
        assert forall|id: Seq<char>| index_of(ps, id) is Some implies index_of(qs, id) is Some by {
            let i = choose|i: int| has_id(ps, id, i);
            assert(has_id(qs, id, i));
        }
    }

    /// Adds `m`, first adding its sender and then its receiver as participants
    /// when they are not there yet.
    pub fn add_message(&mut self, m: Message) -> (r: Result<(), crate::diagram::DiagramError>)
        requires
            old(self).wf(),
        ensures
            r is Ok,
            final(self).wf(),
            final(self).spec_messages() == old(self).spec_messages().push(m),
            final(self).spec_participants() == ({
                let ps0 = old(self).spec_participants();
                let ps1 = if index_of(ps0, m.from@) is Some {
                    ps0
                } else {
                    ps0.push(Participant { id: m.from, label: m.from })
                };
                if index_of(ps1, m.to@) is Some {
                    ps1
                } else {
                    ps1.push(Participant { id: m.to, label: m.to })
                }
            }),
    {
        let ghost ps0 = self.participants@;
        let ghost mut fj: int = 0;
        match self.participant_index(&m.from) {
            Some(j) => {
                proof {
                    fj = j as int;
                    let c = choose|c: int| has_id(ps0, m.from@, c);
                    assert(c == j);
                }
            },
            None => {
                let p = Participant { id: m.from.clone(), label: m.from.clone() };
                proof {
                    self.lemma_push_keeps(p);
                    fj = ps0.len() as int;
                }
                self.participants.push(p);
            },
        }
        let ghost ps1 = self.participants@;
        assert(has_id(ps1, m.from@, fj));
        let ghost mut tj: int = 0;
        match self.participant_index(&m.to) {
            Some(j) => {
                proof {
                    tj = j as int;
                    let c = choose|c: int| has_id(ps1, m.to@, c);
                    assert(c == j);
                }
            },
            None => {
                let p = Participant { id: m.to.clone(), label: m.to.clone() };
                proof {
                    self.lemma_push_keeps(p);
                    tj = ps1.len() as int;
                }
                self.participants.push(p);
            },
        }
        proof {
            let ps2 = self.participants@;
            assert(has_id(ps2, m.from@, fj));
            assert(has_id(ps2, m.to@, tj));
            assert(index_of(ps2, m.to@) is Some);
            assert(index_of(ps2, m.from@) is Some);
            assert forall|k: int| 0 <= k < old(self).messages@.len() implies {
                &&& index_of(ps2, (#[trigger] old(self).messages@[k]).from@) is Some
                &&& index_of(ps2, old(self).messages@[k].to@) is Some
            } by {
                let a = choose|a: int| has_id(ps0, old(self).messages@[k].from@, a);
                let b = choose|b: int| has_id(ps0, old(self).messages@[k].to@, b);
                assert(has_id(ps2, old(self).messages@[k].from@, a));
                assert(has_id(ps2, old(self).messages@[k].to@, b));
            }
        }
        self.messages.push(m);
        proof {
            assert forall|k: int| 0 <= k < self.messages@.len() implies {
                &&& index_of(self.participants@, (#[trigger] self.messages@[k]).from@) is Some
                &&& index_of(self.participants@, self.messages@[k].to@) is Some
            } by {
                if k < self.messages@.len() - 1 {
                    assert(self.messages@[k] == old(self).messages@[k]);
                }
            }
        }
        Ok(())
    }
}

} // verus!
