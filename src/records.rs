//! Rows that the handlers read, the writes they ask for, and a model of a
//! submitter's pending-action state that gives those writes their meaning.
use vstd::prelude::*;

verus! {

/// A contact of the submitter.
#[derive(Clone, Debug)]
pub struct Contact {
    pub id: i64,
    pub name: String,
    pub number: String,
}

/// A group of the submitter with its member count.
#[derive(Clone, Debug)]
pub struct GroupRecord {
    pub id: i64,
    pub name: String,
    pub member_count: u64,
}

/// A candidate number of a contact card that had several.
#[derive(Clone, Debug)]
pub struct DeferredContact {
    pub name: String,
    pub number: String,
    pub description: Option<String>,
}

impl Contact {
    /// A field-by-field copy.
    pub fn copy(&self) -> (r: Contact)
        ensures
            r == *self,
    {
        Contact { id: self.id, name: self.name.clone(), number: self.number.clone() }
    }
}

impl DeferredContact {
    /// A field-by-field copy.
    pub fn copy(&self) -> (r: DeferredContact)
        ensures
            r == *self,
    {
        DeferredContact {
            name: self.name.clone(),
            number: self.number.clone(),
            description: match &self.description {
                Some(d) => Some(d.clone()),
                None => None,
            },
        }
    }
}

impl GroupRecord {
    /// A field-by-field copy.
    pub fn copy(&self) -> (r: GroupRecord)
        ensures
            r == *self,
    {
        GroupRecord { id: self.id, name: self.name.clone(), member_count: self.member_count }
    }
}

/// The kind of workflow that awaits a confirmation.
#[derive(Clone, Copy, Debug, PartialEq, Eq, Structural)]
pub enum ActionKind {
    Deletion,
    Group,
    DeferredContacts,
}

/// One write to the store on behalf of the submitter. A plan of writes is
/// carried out in order, in one transaction.
#[derive(Debug)]
pub enum Write {
    /// Delete the submitter's pending action; its candidates go with it:
    /// deletion candidates, group candidates and deferred contact rows.
    ClearPending,
    /// Insert a pending action of the given kind.
    SetPending(ActionKind),
    /// Record a group as a deletion candidate.
    AddPendingGroup(i64),
    /// Record a contact as a deletion candidate.
    AddPendingContact(i64),
    /// Record a contact as a candidate member of a new group.
    AddPendingMember(i64),
    /// Delete a group; its members go with it.
    DeleteGroup(i64),
    /// Delete a contact.
    DeleteContact(i64),
    /// Create a group with the given name and member numbers.
    CreateGroup(String, Vec<String>),
    /// Add a contact with the given name and number.
    AddContact(String, String),
    /// Replace the number of the contact with the given id.
    UpdateContact(i64, String),
    /// Record one candidate number of a contact card.
    AddDeferred(String, String, Option<String>),
    /// Delete every candidate number recorded under the given name.
    DropDeferred(String),
}

/// What a handler decides: the reply to send and the writes to make.
pub struct Outcome {
    pub reply: String,
    pub writes: Vec<Write>,
}

/// A write as plain values.
pub ghost enum WriteView {
    ClearPending,
    SetPending(ActionKind),
    AddPendingGroup(int),
    AddPendingContact(int),
    AddPendingMember(int),
    DeleteGroup(int),
    DeleteContact(int),
    CreateGroup(Seq<char>, Seq<Seq<char>>),
    AddContact(Seq<char>, Seq<char>),
    UpdateContact(int, Seq<char>),
    AddDeferred(Seq<char>, Seq<char>, Option<Seq<char>>),
    DropDeferred(Seq<char>),
}

pub open spec fn opt_view(o: Option<String>) -> Option<Seq<char>> {
    match o {
        Some(s) => Some(s@),
        None => None,
    }
}

impl View for Write {
    type V = WriteView;

    open spec fn view(&self) -> WriteView {
        match self {
            Write::ClearPending => WriteView::ClearPending,
            Write::SetPending(k) => WriteView::SetPending(*k),
            Write::AddPendingGroup(id) => WriteView::AddPendingGroup(*id as int),
            Write::AddPendingContact(id) => WriteView::AddPendingContact(*id as int),
            Write::AddPendingMember(id) => WriteView::AddPendingMember(*id as int),
            Write::DeleteGroup(id) => WriteView::DeleteGroup(*id as int),
            Write::DeleteContact(id) => WriteView::DeleteContact(*id as int),
            Write::CreateGroup(n, ms) => WriteView::CreateGroup(
                n@,
                ms@.map_values(|m: String| m@),
            ),
            Write::AddContact(n, p) => WriteView::AddContact(n@, p@),
            Write::UpdateContact(id, p) => WriteView::UpdateContact(*id as int, p@),
            Write::AddDeferred(n, p, d) => WriteView::AddDeferred(n@, p@, opt_view(*d)),
            Write::DropDeferred(n) => WriteView::DropDeferred(n@),
        }
    }
}

/// The views of a plan of writes.
pub open spec fn plan_view(p: Seq<Write>) -> Seq<WriteView> {
    p.map_values(|w: Write| w@)
}

/// A deletion candidate.
pub ghost enum Candidate {
    Group(int),
    Contact(int),
}

/// A candidate number of a contact card: name, number, description.
pub type DeferredRow = (Seq<char>, Seq<char>, Option<Seq<char>>);

/// The pending-state rows of one submitter.
pub ghost struct PendingState {
    /// The rows of the pending-action table.
    pub actions: Seq<ActionKind>,
    /// Deletion candidates.
    pub deletions: Seq<Candidate>,
    /// Candidate members of a new group.
    pub members: Seq<int>,
    /// Candidate numbers of contact cards, in insertion order.
    pub deferred: Seq<DeferredRow>,
}

/// The effect of one write on the submitter's pending-state rows.
pub open spec fn apply(s: PendingState, w: WriteView) -> PendingState {
    match w {
        WriteView::ClearPending => PendingState {
            actions: Seq::empty(),
            deletions: Seq::empty(),
            members: Seq::empty(),
            deferred: Seq::empty(),
        },
        WriteView::SetPending(k) => PendingState { actions: s.actions.push(k), ..s },
        WriteView::AddPendingGroup(id) => PendingState {
            deletions: s.deletions.push(Candidate::Group(id)),
            ..s
        },
        WriteView::AddPendingContact(id) => PendingState {
            deletions: s.deletions.push(Candidate::Contact(id)),
            ..s
        },
        WriteView::AddPendingMember(id) => PendingState { members: s.members.push(id), ..s },
        WriteView::AddDeferred(n, p, d) => PendingState { deferred: s.deferred.push((n, p, d)), ..s },
        WriteView::DropDeferred(n) => PendingState {
            deferred: s.deferred.filter(|r: DeferredRow| r.0 != n),
            ..s
        },
        _ => s,
    }
}

/// The effect of a plan, write after write.
pub open spec fn apply_all(s: PendingState, p: Seq<WriteView>) -> PendingState
    decreases p.len(),
{
    if p.len() == 0 {
        s
    } else {
        apply(apply_all(s, p.drop_last()), p.last())
    }
}

/// At most one pending action, and candidates only of the pending kind:
/// no candidate row outlives its action.
pub open spec fn well_formed(s: PendingState) -> bool {
    &&& s.actions.len() <= 1
    &&& s.deletions.len() > 0 ==> s.actions == seq![ActionKind::Deletion]
    &&& s.members.len() > 0 ==> s.actions == seq![ActionKind::Group]
    &&& s.deferred.len() > 0 ==> s.actions == seq![ActionKind::DeferredContacts]
}

} // verus!
