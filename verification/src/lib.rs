//! A singly linked sequence container with owned nodes.
//!
//! The one component is [`singly_linked_list::SinglyLinkedList`]: an ordered
//! sequence of values held in a chain of nodes, each node owning its
//! successor. It offers insertion at either end, removal from either end,
//! and a first-match lookup, and every operation carries a contract over the
//! list's view as a mathematical sequence.

pub mod singly_linked_list;
