//! The backend that the engine speaks to.
//!
//! The engine emits calls; a backend carries them out. Calls are buffered:
//! they are sure to be visible only after a `flush`.

use vstd::prelude::*;
use crate::slab::IdSlab;

verus! {

/// One call to the backend.
#[derive(Debug)]
pub enum Command {
    CreateElement { id: u32, tag: String },
    CreateText { id: u32, text: String },
    SetAttribute { id: u32, name: String, value: String },
    SetStyle { id: u32, name: String, value: String },
    SetText { id: u32, text: String },
    AppendChild { parent: u32, child: u32 },
    CloneNode { id: u32, new_id: u32 },
    Copy { from: u32, to: u32 },
    FirstChild { id: u32 },
    NextSibling { id: u32 },
    Remove { id: u32 },
    AddListener { id: u32, event: String, handler: usize },
    Flush,
}

/// What a [`Command`] holds.
pub enum CommandView {
    CreateElement { id: u32, tag: Seq<char> },
    CreateText { id: u32, text: Seq<char> },
    SetAttribute { id: u32, name: Seq<char>, value: Seq<char> },
    SetStyle { id: u32, name: Seq<char>, value: Seq<char> },
    SetText { id: u32, text: Seq<char> },
    AppendChild { parent: u32, child: u32 },
    CloneNode { id: u32, new_id: u32 },
    Copy { from: u32, to: u32 },
    FirstChild { id: u32 },
    NextSibling { id: u32 },
    Remove { id: u32 },
    AddListener { id: u32, event: Seq<char>, handler: usize },
    Flush,
}

impl View for Command {
    type V = CommandView;

    open spec fn view(&self) -> CommandView {
        match self {
            Command::CreateElement { id, tag } => CommandView::CreateElement { id: *id, tag: tag@ },
            Command::CreateText { id, text } => CommandView::CreateText { id: *id, text: text@ },
            Command::SetAttribute { id, name, value } => CommandView::SetAttribute {
                id: *id,
                name: name@,
                value: value@,
            },
            Command::SetStyle { id, name, value } => CommandView::SetStyle {
                id: *id,
                name: name@,
                value: value@,
            },
            Command::SetText { id, text } => CommandView::SetText { id: *id, text: text@ },
            Command::AppendChild { parent, child } => CommandView::AppendChild {
                parent: *parent,
                child: *child,
            },
            Command::CloneNode { id, new_id } => CommandView::CloneNode {
                id: *id,
                new_id: *new_id,
            },
            Command::Copy { from, to } => CommandView::Copy { from: *from, to: *to },
            Command::FirstChild { id } => CommandView::FirstChild { id: *id },
            Command::NextSibling { id } => CommandView::NextSibling { id: *id },
            Command::Remove { id } => CommandView::Remove { id: *id },
            Command::AddListener { id, event, handler } => CommandView::AddListener {
                id: *id,
                event: event@,
                handler: *handler,
            },
            Command::Flush => CommandView::Flush,
        }
    }
}

/// The commands of a vector, each by its view.
pub open spec fn commands_view(commands: Seq<Command>) -> Seq<CommandView> {
    Seq::new(commands.len(), |i: int| commands[i]@)
}

/// The calls that append each of `children` to `parent`.
pub open spec fn append_all_calls(parent: u32, children: Seq<u32>) -> Seq<CommandView> {
    Seq::new(children.len(), |i: int| CommandView::AppendChild { parent, child: children[i] })
}

/// A backend. Nodes are named by numeric handles that the backend hands
/// out; what a handle is beyond its number is the backend's matter.
pub trait Renderer: Sized {
    /// The calls made so far, the oldest first.
    spec fn commands(&self) -> Seq<CommandView>;

    /// The handles that were handed out and not given back.
    spec fn live(&self) -> Set<u32>;

    /// How many more handles can be handed out.
    spec fn spare(&self) -> nat;

    /// The backend is consistent.
    spec fn wf(&self) -> bool;

    /// Whether `count` more handles can be handed out.
    fn has_spare(&self, count: usize) -> (enough: bool)
        requires
            self.wf(),
        ensures
            enough == (self.spare() >= count),
    ;

    /// Hands out a handle that is not in use: a new one, or one that was
    /// given back.
    fn node(&mut self) -> (id: u32)
        requires
            old(self).wf(),
            old(self).spare() > 0,
        ensures
            final(self).wf(),
            !old(self).live().contains(id),
            final(self).live() == old(self).live().insert(id),
            final(self).spare() == old(self).spare() - 1,
            final(self).commands() == old(self).commands(),
    ;

    /// Appends each of `children` to `parent`, in their order.
    fn append_all(&mut self, parent: u32, children: &Vec<u32>)
        requires
            old(self).wf(),
        ensures
            final(self).wf(),
            final(self).commands() == old(self).commands() + append_all_calls(parent, children@),
            final(self).live() == old(self).live(),
            final(self).spare() == old(self).spare(),
    ;

    /// Sets the attribute `name` of the node to `value`.
    fn set_attribute(&mut self, id: u32, name: &str, value: &str)
        requires
            old(self).wf(),
        ensures
            final(self).wf(),
            final(self).commands() == old(self).commands() + seq![
                CommandView::SetAttribute { id, name: name@, value: value@ },
            ],
            final(self).live() == old(self).live(),
            final(self).spare() == old(self).spare(),
    ;

    /// Sets the style property `name` of the node to `value`.
    fn set_style(&mut self, id: u32, name: &str, value: &str)
        requires
            old(self).wf(),
        ensures
            final(self).wf(),
            final(self).commands() == old(self).commands() + seq![
                CommandView::SetStyle { id, name: name@, value: value@ },
            ],
            final(self).live() == old(self).live(),
            final(self).spare() == old(self).spare(),
    ;

    /// Makes the node of handle `id` a new element.
    fn create_element(&mut self, id: u32, tag: &str)
        requires
            old(self).wf(),
        ensures
            final(self).wf(),
            final(self).commands() == old(self).commands() + seq![
                CommandView::CreateElement { id, tag: tag@ },
            ],
            final(self).live() == old(self).live(),
            final(self).spare() == old(self).spare(),
    ;

    /// Makes the node of handle `id` a new text node.
    fn create_text(&mut self, id: u32, text: &str)
        requires
            old(self).wf(),
        ensures
            final(self).wf(),
            final(self).commands() == old(self).commands() + seq![
                CommandView::CreateText { id, text: text@ },
            ],
            final(self).live() == old(self).live(),
            final(self).spare() == old(self).spare(),
    ;

    /// Sets the text of the node to `text`.
    fn set_text(&mut self, id: u32, text: &str)
        requires
            old(self).wf(),
        ensures
            final(self).wf(),
            final(self).commands() == old(self).commands() + seq![
                CommandView::SetText { id, text: text@ },
            ],
            final(self).live() == old(self).live(),
            final(self).spare() == old(self).spare(),
    ;

    /// Appends the node `child` to the node `parent`.
    fn append_child(&mut self, parent: u32, child: u32)
        requires
            old(self).wf(),
        ensures
            final(self).wf(),
            final(self).commands() == old(self).commands() + seq![
                CommandView::AppendChild { parent, child },
            ],
            final(self).live() == old(self).live(),
            final(self).spare() == old(self).spare(),
    ;

    /// Makes the node of handle `new_id` a deep copy of the node of `id`.
    fn clone_node(&mut self, id: u32, new_id: u32)
        requires
            old(self).wf(),
        ensures
            final(self).wf(),
            final(self).commands() == old(self).commands() + seq![
                CommandView::CloneNode { id, new_id },
            ],
            final(self).live() == old(self).live(),
            final(self).spare() == old(self).spare(),
    ;

    /// Lets handle `to` name the node that `from` names. Nothing is cloned.
    fn copy(&mut self, from: u32, to: u32)
        requires
            old(self).wf(),
        ensures
            final(self).wf(),
            final(self).commands() == old(self).commands() + seq![CommandView::Copy { from, to }],
            final(self).live() == old(self).live(),
            final(self).spare() == old(self).spare(),
    ;

    /// Moves handle `id` to the first child of the node it names.
    fn first_child(&mut self, id: u32)
        requires
            old(self).wf(),
        ensures
            final(self).wf(),
            final(self).commands() == old(self).commands() + seq![CommandView::FirstChild { id }],
            final(self).live() == old(self).live(),
            final(self).spare() == old(self).spare(),
    ;

    /// Moves handle `id` to the next sibling of the node it names.
    fn next_sibling(&mut self, id: u32)
        requires
            old(self).wf(),
        ensures
            final(self).wf(),
            final(self).commands() == old(self).commands() + seq![CommandView::NextSibling { id }],
            final(self).live() == old(self).live(),
            final(self).spare() == old(self).spare(),
    ;

    /// Takes the node out of the tree.
    fn remove(&mut self, id: u32)
        requires
            old(self).wf(),
        ensures
            final(self).wf(),
            final(self).commands() == old(self).commands() + seq![CommandView::Remove { id }],
            final(self).live() == old(self).live(),
            final(self).spare() == old(self).spare(),
    ;

    /// Takes a handle back. It may be handed out again.
    fn return_node(&mut self, id: u32)
        requires
            old(self).wf(),
            old(self).live().contains(id),
        ensures
            final(self).wf(),
            final(self).live() == old(self).live().remove(id),
            final(self).spare() == old(self).spare() + 1,
            final(self).commands() == old(self).commands(),
    ;

    /// Registers the listener `handler` for the events called `event` on
    /// the node.
    fn add_listener(&mut self, id: u32, event: &str, handler: usize)
        requires
            old(self).wf(),
        ensures
            final(self).wf(),
            final(self).commands() == old(self).commands() + seq![
                CommandView::AddListener { id, event: event@, handler },
            ],
            final(self).live() == old(self).live(),
            final(self).spare() == old(self).spare(),
    ;

    /// Commits the calls made so far.
    fn flush(&mut self)
        requires
            old(self).wf(),
        ensures
            final(self).wf(),
            final(self).commands() == old(self).commands() + seq![CommandView::Flush],
            final(self).live() == old(self).live(),
            final(self).spare() == old(self).spare(),
    ;
}

/// A backend that keeps the calls it is given, for a host to carry out.
/// Handle 0 names the host's container and is in use from the start.
pub struct CommandBuffer {
    pub ids: IdSlab<()>,
    pub commands: Vec<Command>,
}

impl CommandBuffer {
    fn push(&mut self, command: Command)
        requires
            old(self).wf(),
        ensures
            final(self).wf(),
            final(self).commands() == old(self).commands() + seq![command@],
            final(self).live() == old(self).live(),
            final(self).spare() == old(self).spare(),
    {
        self.commands.push(command);
        proof {
            assert(commands_view(self.commands@) =~= commands_view(old(self).commands@) + seq![
                command@,
            ]);
        }
    }

    /// The calls kept since the last take, which empties the buffer.
    pub fn take(&mut self) -> (taken: Vec<Command>)
        requires
            old(self).wf(),
        ensures
            final(self).wf(),
            commands_view(taken@) == old(self).commands(),
            final(self).commands() == Seq::<CommandView>::empty(),
            final(self).live() == old(self).live(),
            final(self).spare() == old(self).spare(),
    {
        let mut taken: Vec<Command> = Vec::new();
        std::mem::swap(&mut taken, &mut self.commands);
        proof {
            assert(commands_view(self.commands@) =~= Seq::<CommandView>::empty());
        }
        taken
    }
}

impl Default for CommandBuffer {
    fn default() -> (buffer: Self)
        ensures
            buffer.wf(),
            buffer.commands() == Seq::<CommandView>::empty(),
            buffer.live() == set![0u32],
            buffer.spare() == u32::MAX - 1,
    {
        let mut ids: IdSlab<()> = IdSlab::default();
        ids.id(());
        let buffer = CommandBuffer { ids, commands: Vec::new() };
        proof {
            assert(commands_view(buffer.commands@) =~= Seq::<CommandView>::empty());
            assert(buffer.live() =~= set![0u32]);
        }
        buffer
    }
}

impl Renderer for CommandBuffer {
    open spec fn commands(&self) -> Seq<CommandView> {
        commands_view(self.commands@)
    }

    open spec fn live(&self) -> Set<u32> {
        Set::new(
            |id: u32| (id as int) < self.ids.slots().len() && self.ids.slots()[id as int].is_some(),
        )
    }

    open spec fn spare(&self) -> nat {
        (self.ids.recycled().len() + u32::MAX - self.ids.slots().len()) as nat
    }

    open spec fn wf(&self) -> bool {
        &&& self.ids.wf()
        &&& self.ids.slots().len() <= u32::MAX
        &&& self.ids.recycled().no_duplicates()
        &&& forall|i: int|
            0 <= i < self.ids.recycled().len() ==> {
                &&& (#[trigger] self.ids.recycled()[i] as int) < self.ids.slots().len()
                &&& self.ids.slots()[self.ids.recycled()[i] as int].is_none()
            }
    }

    fn has_spare(&self, count: usize) -> (enough: bool) {
        self.ids.spare() >= count as u64
    }

    fn node(&mut self) -> (id: u32) {
        let id = self.ids.id(());
        proof {
            assert(self.live() =~= old(self).live().insert(id));
        }
        id
    }

    fn append_all(&mut self, parent: u32, children: &Vec<u32>) {
        let mut i: usize = 0;
        proof {
            assert(self.commands() =~= old(self).commands() + append_all_calls(
                parent,
                children@.take(0),
            ));
        }
        while i < children.len()
            invariant
                i <= children@.len(),
                self.wf(),
                self.live() == old(self).live(),
                self.spare() == old(self).spare(),
                self.commands() == old(self).commands() + append_all_calls(
                    parent,
                    children@.take(i as int),
                ),
            decreases children@.len() - i,
        {
            self.push(Command::AppendChild { parent, child: children[i] });
            proof {
                assert(append_all_calls(parent, children@.take(i + 1)) =~= append_all_calls(
                    parent,
                    children@.take(i as int),
                ) + seq![CommandView::AppendChild { parent, child: children@[i as int] }]);
            }
            i = i + 1;
        }
        proof {
            assert(children@.take(children@.len() as int) =~= children@);
        }
    }

    fn set_attribute(&mut self, id: u32, name: &str, value: &str) {
        self.push(Command::SetAttribute { id, name: name.to_owned(), value: value.to_owned() });
    }

    fn set_style(&mut self, id: u32, name: &str, value: &str) {
        self.push(Command::SetStyle { id, name: name.to_owned(), value: value.to_owned() });
    }

    fn create_element(&mut self, id: u32, tag: &str) {
        self.push(Command::CreateElement { id, tag: tag.to_owned() });
    }

    fn create_text(&mut self, id: u32, text: &str) {
        self.push(Command::CreateText { id, text: text.to_owned() });
    }

    fn set_text(&mut self, id: u32, text: &str) {
        self.push(Command::SetText { id, text: text.to_owned() });
    }

    fn append_child(&mut self, parent: u32, child: u32) {
        self.push(Command::AppendChild { parent, child });
    }

    fn clone_node(&mut self, id: u32, new_id: u32) {
        self.push(Command::CloneNode { id, new_id });
    }

    fn copy(&mut self, from: u32, to: u32) {
        self.push(Command::Copy { from, to });
    }

    fn first_child(&mut self, id: u32) {
        self.push(Command::FirstChild { id });
    }

    fn next_sibling(&mut self, id: u32) {
        self.push(Command::NextSibling { id });
    }

    fn remove(&mut self, id: u32) {
        self.push(Command::Remove { id });
    }

    fn return_node(&mut self, id: u32) {
        self.ids.recycle(id);
        proof {
            assert(self.live() =~= old(self).live().remove(id));
            assert(old(self).ids.slots()[id as int].is_some());
        }
    }

    fn add_listener(&mut self, id: u32, event: &str, handler: usize) {
        self.push(Command::AddListener { id, event: event.to_owned(), handler });
    }

    fn flush(&mut self) {
        self.push(Command::Flush);
    }
}

} // verus!
