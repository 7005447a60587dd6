//! A container as the container list reads it, and the reference through
//! which the list knows it.
use vstd::prelude::*;

verus! {

/// The state a container is in.
#[derive(PartialEq, Eq, Structural, Clone, Copy, Debug)]
pub enum ContainerStatus {
    Created,
    Dead,
    Exited,
    Paused,
    Running,
    /// Any other state.
    Unknown,
}

/// What the list reads of a container: its id and its status.
pub struct Container {
    pub id: String,
    pub status: ContainerStatus,
}

/// A container as a mathematical value.
pub ghost struct ContainerView {
    pub id: Seq<char>,
    pub status: ContainerStatus,
}

impl View for Container {
    type V = ContainerView;

    open spec fn view(&self) -> ContainerView {
        ContainerView { id: self.id@, status: self.status }
    }
}

impl Container {
    pub fn new(id: String, status: ContainerStatus) -> (r: Container)
        ensures
            r.id == id,
            r.status == status,
    {
        Container { id, status }
    }

    pub fn id(&self) -> (r: &str)
        ensures
            r@ == self.id@,
    {
        self.id.as_str()
    }

    pub fn status(&self) -> (r: ContainerStatus)
        ensures
            r == self.status,
    {
        self.status
    }
}

impl Clone for Container {
    fn clone(&self) -> (r: Container)
        ensures
            r@ == self@,
    {
        Container { id: self.id.clone(), status: self.status }
    }
}

/// What a list knows of a container through its reference: the container's
/// state as last set, or nothing when it was never set or was set to nothing
/// because the container is gone. The list learns of changes to the container
/// and of its end only when it is told (`set`, or the list's own updates).
pub struct ContainerRef {
    target: Option<Container>,
}

/// A container reference as a mathematical value: the container it leads to, if any.
pub type ContainerRefView = Option<ContainerView>;

impl View for ContainerRef {
    type V = ContainerRefView;

    closed spec fn view(&self) -> ContainerRefView {
        match self.target {
            Some(c) => Some(c@),
            None => None,
        }
    }
}

impl ContainerRef {
    /// A reference that leads to nothing.
    pub fn new() -> (r: ContainerRef)
        ensures
            r@ is None,
    {
        ContainerRef { target: None }
    }

    /// Points the reference at `container`, or at nothing.
    pub fn set(&mut self, container: Option<&Container>)
        ensures
            final(self)@ == match container {
                Some(c) => Some(c@),
                None => None::<ContainerView>,
            },
    {
        self.target = match container {
            Some(c) => Some(c.clone()),
            None => None,
        };
    }

    /// The container that the reference leads to, if any.
    pub fn upgrade(&self) -> (r: Option<Container>)
        ensures
            match r {
                Some(c) => self@ == Some(c@),
                None => self@ is None,
            },
    {
        match &self.target {
            Some(c) => Some(c.clone()),
            None => None,
        }
    }
}

} // verus!
