//! The conversation history: the role-tagged messages of one chat session,
//! in the order in which they were said.

use vstd::prelude::*;

verus! {

/// Who said a message.
#[derive(Clone, Copy, Debug, PartialEq, Eq, Structural)]
pub enum Role {
    System,
    User,
    Assistant,
}

impl Role {
    /// The name of the role on the wire.
    pub open spec fn name(self) -> Seq<char> {
        match self {
            Role::System => "system"@,
            Role::User => "user"@,
            Role::Assistant => "assistant"@,
        }
    }

    /// The name of the role on the wire.
    pub fn as_str(&self) -> (r: &'static str)
        ensures
            r@ == self.name(),
    {
        match self {
            Role::System => "system",
            Role::User => "user",
            Role::Assistant => "assistant",
        }
    }
}

/// One message of a conversation. It is not changed once it is part of a history.
#[derive(Debug, PartialEq, Eq)]
pub struct Message {
    pub role: Role,
    pub content: String,
}

/// The mathematical value of a `Message`.
pub struct MessageView {
    pub role: Role,
    pub content: Seq<char>,
}

impl View for Message {
    type V = MessageView;

    open spec fn view(&self) -> MessageView {
        MessageView { role: self.role, content: self.content@ }
    }
}

impl DeepView for Message {
    type V = MessageView;

    open spec fn deep_view(&self) -> MessageView {
        self@
    }
}

impl Clone for Message {
    fn clone(&self) -> (r: Self)
        ensures
            r == *self,
    {
        Message { role: self.role, content: self.content.clone() }
    }
}

impl Message {
    /// A message with the given role and content.
    pub fn new(role: Role, content: String) -> (r: Self)
        ensures
            r@ == (MessageView { role, content: content@ }),
    {
        Message { role, content }
    }
}

/// The system message with the given content.
pub open spec fn system_message(content: Seq<char>) -> MessageView {
    MessageView { role: Role::System, content }
}

/// The user message with the given content.
pub open spec fn user_message(content: Seq<char>) -> MessageView {
    MessageView { role: Role::User, content }
}

/// The assistant message with the given content.
pub open spec fn assistant_message(content: Seq<char>) -> MessageView {
    MessageView { role: Role::Assistant, content }
}

/// What holds of every history: it starts with its one system message.
pub open spec fn is_history(messages: Seq<MessageView>) -> bool {
    &&& messages.len() >= 1
    &&& messages[0].role == Role::System
    &&& forall|i: int| 1 <= i < messages.len() ==> (#[trigger] messages[i]).role != Role::System
}

/// The messages of one chat session. It only grows, at its end; its first
/// message is the system message that it was started with, and it holds no
/// other system message.
#[derive(Debug)]
pub struct ConversationHistory {
    system: Message,
    turns: Vec<Message>,
}

impl View for ConversationHistory {
    type V = Seq<MessageView>;

    closed spec fn view(&self) -> Seq<MessageView> {
        seq![self.system@] + self.turns.deep_view()
    }
}

impl ConversationHistory {
    #[verifier::type_invariant]
    spec fn starts_with_its_system_message(self) -> bool {
        is_history(self@)
    }

    /// A history that holds the system message with the given content and nothing else.
    pub fn new(system_content: String) -> (r: Self)
        ensures
            r@ == seq![system_message(system_content@)],
            is_history(r@),
    {
        let system = Message { role: Role::System, content: system_content };
        let turns: Vec<Message> = Vec::new();
        assert(seq![system@] + turns.deep_view() =~= seq![system_message(system_content@)]);
        ConversationHistory { system, turns }
    }

    fn push(&mut self, message: Message)
        requires
            message.role != Role::System,
        ensures
            final(self)@ == old(self)@.push(message@),
            is_history(final(self)@),
    {
        proof {
            use_type_invariant(&*self);
        }
        let ghost before = self.turns.deep_view();
        let mut turns: Vec<Message> = Vec::new();
        assert(seq![self.system@] + turns.deep_view() =~= seq![self.system@]);
        std::mem::swap(&mut turns, &mut self.turns);
        turns.push(message);
        assert(turns.deep_view() =~= before.push(message@));
        assert(seq![self.system@] + before.push(message@) =~= (seq![self.system@] + before).push(
            message@,
        ));
        self.turns = turns;
    }

    /// Appends what the user said.
    pub fn push_user(&mut self, content: String)
        ensures
            final(self)@ == old(self)@.push(user_message(content@)),
            is_history(final(self)@),
    {
        self.push(Message { role: Role::User, content });
    }

    /// Appends what the assistant answered.
    pub fn push_assistant(&mut self, content: String)
        ensures
            final(self)@ == old(self)@.push(assistant_message(content@)),
            is_history(final(self)@),
    {
        self.push(Message { role: Role::Assistant, content });
    }

    /// The number of messages; never zero.
    pub fn len(&self) -> (r: usize)
        requires
            self@.len() <= usize::MAX,
        ensures
            r == self@.len(),
            r >= 1,
    {
        1 + self.turns.len()
    }

    /// A copy of the messages, oldest first, as a request carries them.
    pub fn to_vec(&self) -> (r: Vec<Message>)
        ensures
            r.deep_view() == self@,
            is_history(self@),
    {
        proof {
            use_type_invariant(self);
        }
        let mut out: Vec<Message> = Vec::new();
        out.push(self.system.clone());
        assert(out.deep_view() =~= seq![self.system@]);
        let mut i: usize = 0;
        while i < self.turns.len()
            invariant
                i <= self.turns.len(),
                out.deep_view() == seq![self.system@] + self.turns.deep_view().take(i as int),
            decreases self.turns.len() - i,
        {
            let ghost before = out.deep_view();
            out.push(self.turns[i].clone());
            assert(out.deep_view() =~= before.push(self.turns@[i as int]@));
            i = i + 1;
            assert(self.turns.deep_view().take(i as int) =~= self.turns.deep_view().take(
                i - 1,
            ).push(self.turns@[i - 1]@));
        }
        assert(self.turns.deep_view().take(self.turns.len() as int) =~= self.turns.deep_view());
        out
    }
}

} // verus!
