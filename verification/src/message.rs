//! The messages a model is sent and answers with.
use vstd::prelude::*;
use crate::json::{member_models, models, object_of, Json, JsonModel};
use crate::text::same;

verus! {

#[derive(Debug, Clone, Copy, PartialEq, Eq, Structural)]
pub enum Role {
    User,
    Assistant,
    System,
}

impl Role {
    pub open spec fn name(self) -> Seq<char> {
        match self {
            Role::User => "user"@,
            Role::Assistant => "assistant"@,
            Role::System => "system"@,
        }
    }

    pub fn as_str(&self) -> (r: &'static str)
        ensures
            r@ == self.name(),
    {
        match self {
            Role::User => "user",
            Role::Assistant => "assistant",
            Role::System => "system",
        }
    }
}

#[derive(Debug)]
pub enum ContentBlock {
    Text { text: String },
    /// Any other block, as it is stored: a tool call, a tool's result, and
    /// whatever else a model is sent.
    Other { block: Json },
}

/// What a [`ContentBlock`] says.
pub enum BlockModel {
    Text(Seq<char>),
    Other(JsonModel),
}

impl View for ContentBlock {
    type V = BlockModel;

    open spec fn view(&self) -> BlockModel {
        match *self {
            ContentBlock::Text { text } => BlockModel::Text(text@),
            ContentBlock::Other { block } => BlockModel::Other(block@),
        }
    }
}

/// What a list of blocks says.
pub open spec fn blocks(content: Seq<ContentBlock>) -> Seq<BlockModel> {
    Seq::new(content.len(), |i: int| content[i]@)
}

/// The texts among some blocks, in order.
pub open spec fn texts_in(content: Seq<BlockModel>) -> Seq<Seq<char>>
    decreases content.len(),
{
    if content.len() == 0 {
        Seq::empty()
    } else {
        match content.last() {
            BlockModel::Text(text) => texts_in(content.drop_last()).push(text),
            BlockModel::Other(_) => texts_in(content.drop_last()),
        }
    }
}

#[derive(Debug)]
pub struct Message {
    pub role: Role,
    pub content: Vec<ContentBlock>,
}

/// What a [`Message`] says: who speaks, and the blocks in order.
pub struct MessageModel {
    pub role: Role,
    pub content: Seq<BlockModel>,
}

impl View for Message {
    type V = MessageModel;

    open spec fn view(&self) -> MessageModel {
        MessageModel { role: self.role, content: blocks(self.content@) }
    }
}

/// Texts one after another.
pub open spec fn joined(parts: Seq<Seq<char>>) -> Seq<char>
    decreases parts.len(),
{
    if parts.len() == 0 {
        Seq::empty()
    } else {
        joined(parts.drop_last()) + parts.last()
    }
}

/// A text block in the shape a client reads.
pub open spec fn text_block_json(text: Seq<char>) -> JsonModel {
    object_of(seq![("type"@, JsonModel::Str("text"@)), ("text"@, JsonModel::Str(text))])
}

/// A block in the shape it is stored in.
pub open spec fn block_json(block: BlockModel) -> JsonModel {
    match block {
        BlockModel::Text(text) => text_block_json(text),
        BlockModel::Other(json) => json,
    }
}

/// Blocks in the shape they are stored in.
pub open spec fn block_jsons(content: Seq<BlockModel>) -> Seq<JsonModel> {
    Seq::new(content.len(), |i: int| block_json(content[i]))
}

/// A message of one text block.
pub open spec fn text_message(role: Role, text: Seq<char>) -> MessageModel {
    MessageModel { role, content: seq![BlockModel::Text(text)] }
}

impl MessageModel {
    /// The message in the shape a client reads and a transcript stores.
    pub open spec fn json(self) -> JsonModel {
        object_of(
            seq![
                ("role"@, JsonModel::Str(self.role.name())),
                ("content"@, JsonModel::List(block_jsons(self.content))),
            ],
        )
    }

    /// Whether no text is hidden in a block of another kind.
    pub open spec fn plain(self) -> bool {
        forall|i: int|
            0 <= i < self.content.len() ==> ((#[trigger] self.content[i]) matches BlockModel::Other(
                json,
            ) ==> block_text(json) is None)
    }
}

/// A text block in the shape a client reads.
pub fn text_block(text: &str) -> (r: Json)
    ensures
        r@ == text_block_json(text@),
{
    let r = vec![
        ("type".to_owned(), Json::text("text")),
        ("text".to_owned(), Json::text(text)),
    ];
    assert(member_models(r@) =~= seq![
        ("type"@, JsonModel::Str("text"@)),
        ("text"@, JsonModel::Str(text@)),
    ]);
    Json::object(r)
}

impl Message {
    /// A message of one text block.
    pub fn of_text(role: Role, text: String) -> (r: Message)
        ensures
            r@ == text_message(role, text@),
    {
        let r = Message { role, content: vec![ContentBlock::Text { text }] };
        assert(r@.content =~= seq![BlockModel::Text(text@)]);
        r
    }

    /// Everything the message says in words.
    pub fn text(&self) -> (r: String)
        ensures
            r@ == joined(texts_in(self@.content)),
    {
        let mut r = String::new();
        let mut i: usize = 0;
        assert(self@.content.take(0) =~= Seq::empty());
        while i < self.content.len()
            invariant
                i <= self.content@.len(),
                r@ == joined(texts_in(self@.content.take(i as int))),
            decreases self.content@.len() - i,
        {
            proof {
                let before = self@.content.take(i as int);
                assert(self@.content.take(i + 1).drop_last() =~= before);
                if let BlockModel::Text(text) = self@.content[i as int] {
                    assert(texts_in(before).push(text).drop_last() =~= texts_in(before));
                }
            }
            match &self.content[i] {
                ContentBlock::Text { text } => {
                    r.append(text.as_str());
                },
                ContentBlock::Other { .. } => {},
            }
            i += 1;
        }
        assert(self@.content.take(i as int) =~= self@.content);
        r
    }

    /// The message in the shape a client reads and a transcript stores.
    pub fn to_json(&self) -> (r: Json)
        ensures
            r@ == self@.json(),
    {
        let mut content: Vec<Json> = Vec::new();
        let mut i: usize = 0;
        while i < self.content.len()
            invariant
                i <= self.content@.len(),
                content@.len() == i,
                forall|k: int| 0 <= k < i ==> content@[k]@ == block_json(self@.content[k]),
            decreases self.content@.len() - i,
        {
            match &self.content[i] {
                ContentBlock::Text { text } => {
                    content.push(text_block(text.as_str()));
                },
                ContentBlock::Other { block } => {
                    content.push(block.duplicate());
                },
            }
            i += 1;
        }
        assert(models(content@) =~= block_jsons(self@.content));
        let members = vec![
            ("role".to_owned(), Json::text(self.role.as_str())),
            ("content".to_owned(), Json::list(content)),
        ];
        assert(member_models(members@) =~= seq![
            ("role"@, JsonModel::Str(self.role.name())),
            ("content"@, JsonModel::List(models(content@))),
        ]);
        Json::object(members)
    }
}

/// What a stored block is read back as: text where it is a text block, else
/// the block itself.
pub open spec fn block_of(json: JsonModel) -> BlockModel {
    match block_text(json) {
        Some(text) => BlockModel::Text(text),
        None => BlockModel::Other(json),
    }
}

/// What stored blocks are read back as, every one of them, in order.
pub open spec fn blocks_of(list: Seq<JsonModel>) -> Seq<BlockModel> {
    Seq::new(list.len(), |i: int| block_of(list[i]))
}

impl MessageModel {
    /// What a stored message says once it is read back. Everyone but the
    /// assistant speaks as the user.
    pub open spec fn from_json(payload: JsonModel) -> MessageModel {
        MessageModel {
            role: if payload.str_at("role"@) == Some("assistant"@) {
                Role::Assistant
            } else {
                Role::User
            },
            content: match payload.get("content"@) {
                Some(JsonModel::List(list)) => blocks_of(list),
                Some(JsonModel::Str(text)) => seq![BlockModel::Text(text)],
                _ => Seq::empty(),
            },
        }
    }
}

/// The text of a block, where it is a text block that has one.
pub open spec fn block_text(block: JsonModel) -> Option<Seq<char>> {
    if block.str_at("type"@) == Some("text"@) {
        block.str_at("text"@)
    } else {
        None
    }
}

/// The texts of the text blocks in a list, in order.
pub open spec fn text_blocks(list: Seq<JsonModel>) -> Seq<Seq<char>>
    decreases list.len(),
{
    if list.len() == 0 {
        Seq::empty()
    } else {
        match block_text(list.last()) {
            Some(text) => text_blocks(list.drop_last()).push(text),
            None => text_blocks(list.drop_last()),
        }
    }
}

/// The text of a block, where it is a text block that has one.
pub fn text_of_block(block: &Json) -> (r: Option<&str>)
    ensures
        match r {
            Some(text) => block_text(block@) == Some(text@),
            None => block_text(block@) is None,
        },
{
    match block.str_at("type") {
        Some(kind) => {
            if same(kind, "text") {
                block.str_at("text")
            } else {
                None
            }
        },
        None => None,
    }
}

/// Reads a stored message back.
pub fn transcript_to_message(payload: &Json) -> (r: Message)
    ensures
        r@ == MessageModel::from_json(payload@),
{
    let role = match payload.str_at("role") {
        Some(name) => {
            if same(name, "assistant") {
                Role::Assistant
            } else {
                Role::User
            }
        },
        None => Role::User,
    };
    let mut content: Vec<ContentBlock> = Vec::new();
    if let Some(found) = payload.get("content") {
        if let Some(list) = found.as_list() {
            let ghost all = models(list@);
            let mut i: usize = 0;
            while i < list.len()
                invariant
                    i <= list@.len(),
                    all == models(list@),
                    content@.len() == i,
                    forall|k: int| 0 <= k < i ==> (#[trigger] content@[k])@ == block_of(all[k]),
                decreases list@.len() - i,
            {
                match text_of_block(&list[i]) {
                    Some(text) => {
                        content.push(ContentBlock::Text { text: text.to_owned() });
                    },
                    None => {
                        content.push(ContentBlock::Other { block: list[i].duplicate() });
                    },
                }
                i += 1;
            }
            assert(blocks(content@) =~= blocks_of(all));
        } else if let Some(text) = found.as_str() {
            content.push(ContentBlock::Text { text: text.to_owned() });
            assert(blocks(content@) =~= seq![BlockModel::Text(text@)]);
        } else {
            assert(blocks(content@) =~= Seq::empty());
        }
    } else {
        assert(blocks(content@) =~= Seq::empty());
    }
    Message { role, content }
}

proof fn lemma_text_block(text: Seq<char>)
    ensures
        block_text(text_block_json(text)) == Some(text),
{
    reveal_with_fuel(crate::json::members_map, 3);
    reveal_strlit("type");
    reveal_strlit("text");
    assert("type"@[1] == 'y' && "text"@[1] == 'e');
    let members = seq![("type"@, JsonModel::Str("text"@)), ("text"@, JsonModel::Str(text))];
    assert(members.drop_last() =~= seq![("type"@, JsonModel::Str("text"@))]);
    assert(members.drop_last().drop_last() =~= Seq::empty());
}

proof fn lemma_blocks_read_back(message: MessageModel)
    requires
        message.plain(),
    ensures
        blocks_of(block_jsons(message.content)) == message.content,
{
    let content = message.content;
    assert forall|i: int| 0 <= i < content.len() implies block_of(block_json(content[i]))
        == content[i] by {
        match content[i] {
            BlockModel::Text(text) => lemma_text_block(text),
            BlockModel::Other(_) => {},
        }
    }
    assert(blocks_of(block_jsons(content)) =~= content);
}

/// A message that the user or the assistant spoke is read back from its stored
/// form unchanged, whatever blocks it holds.
pub proof fn a_stored_message_reads_back(message: MessageModel)
    requires
        message.role != Role::System,
        message.plain(),
    ensures
        MessageModel::from_json(message.json()) == message,
{
    lemma_members_of_a_message(message);
    lemma_blocks_read_back(message);
}

/// The members of a stored message are its role and its blocks.
pub(crate) proof fn lemma_members_of_a_message(message: MessageModel)
    ensures
        message.json().get("content"@) == Some(JsonModel::List(block_jsons(message.content))),
        message.json().str_at("role"@) == Some(message.role.name()),
        (message.role.name() == "assistant"@) == (message.role == Role::Assistant),
{
    reveal_with_fuel(crate::json::members_map, 3);
    reveal_strlit("role");
    reveal_strlit("content");
    reveal_strlit("user");
    reveal_strlit("system");
    reveal_strlit("assistant");
    assert("role"@.len() == 4 && "content"@.len() == 7);
    assert("user"@.len() == 4 && "assistant"@.len() == 9 && "system"@.len() == 6);
    let list = block_jsons(message.content);
    let members = seq![
        ("role"@, JsonModel::Str(message.role.name())),
        ("content"@, JsonModel::List(list)),
    ];
    assert(members.drop_last() =~= seq![("role"@, JsonModel::Str(message.role.name()))]);
    assert(members.drop_last().drop_last() =~= Seq::empty());
}

/// Reading a stored message back loses none of its blocks: a text block gives
/// its text, and any other comes out as it was stored.
pub proof fn no_block_is_lost(payload: JsonModel, list: Seq<JsonModel>, i: int)
    requires
        payload.get("content"@) == Some(JsonModel::List(list)),
        0 <= i < list.len(),
    ensures
        MessageModel::from_json(payload).content.len() == list.len(),
        MessageModel::from_json(payload).content[i] == match block_text(list[i]) {
            Some(text) => BlockModel::Text(text),
            None => BlockModel::Other(list[i]),
        },
{
}

/// A message is stored with who speaks and with its blocks, each under its own
/// key; a text block as its text, and any other as it is.
pub proof fn a_message_is_stored_under_its_keys(message: MessageModel, i: int)
    requires
        0 <= i < message.content.len(),
    ensures
        message.json().str_at("role"@) == Some(
            match message.role {
                Role::User => "user"@,
                Role::Assistant => "assistant"@,
                Role::System => "system"@,
            },
        ),
        message.json().get("content"@) matches Some(JsonModel::List(list)) && list.len()
            == message.content.len() && match message.content[i] {
            BlockModel::Text(text) => list[i].str_at("type"@) == Some("text"@) && list[i].str_at(
                "text"@,
            ) == Some(text),
            BlockModel::Other(block) => list[i] == block,
        },
{
    lemma_members_of_a_message(message);
    if let BlockModel::Text(text) = message.content[i] {
        lemma_text_block(text);
        lemma_text_block_members(text);
    }
}

proof fn lemma_text_block_members(text: Seq<char>)
    ensures
        text_block_json(text).str_at("type"@) == Some("text"@),
        text_block_json(text).str_at("text"@) == Some(text),
{
    reveal_with_fuel(crate::json::members_map, 3);
    reveal_strlit("type");
    reveal_strlit("text");
    assert("type"@[1] == 'y' && "text"@[1] == 'e');
    let members = seq![("type"@, JsonModel::Str("text"@)), ("text"@, JsonModel::Str(text))];
    assert(members.drop_last() =~= seq![("type"@, JsonModel::Str("text"@))]);
    assert(members.drop_last().drop_last() =~= Seq::empty());
}

/// Texts are joined in their order, every one of them, with nothing between.
pub proof fn joined_texts_follow_each_other(a: Seq<Seq<char>>, b: Seq<Seq<char>>, text: Seq<char>)
    ensures
        joined(a + b) == joined(a) + joined(b),
        joined(seq![text]) == text,
    decreases b.len(),
{
    if b.len() == 0 {
        assert(a + b =~= a);
        assert(joined(a) + joined(b) =~= joined(a));
    } else {
        joined_texts_follow_each_other(a, b.drop_last(), text);
        assert((a + b).drop_last() =~= a + b.drop_last());
        assert(joined(a + b) =~= joined(a) + joined(b));
    }
    reveal_with_fuel(joined, 2);
    assert(seq![text].drop_last() =~= Seq::empty());
    assert(Seq::<char>::empty() + text =~= text);
}

/// What a message says in words is the text of its text blocks, in order, and
/// of no other block.
pub proof fn a_message_says_its_texts(content: Seq<BlockModel>, text: Seq<char>, block: JsonModel)
    ensures
        joined(texts_in(content.push(BlockModel::Text(text)))) == joined(texts_in(content)) + text,
        joined(texts_in(content.push(BlockModel::Other(block)))) == joined(texts_in(content)),
        joined(texts_in(Seq::empty())) == Seq::<char>::empty(),
{
    assert(content.push(BlockModel::Text(text)).drop_last() =~= content);
    assert(content.push(BlockModel::Other(block)).drop_last() =~= content);
    assert(texts_in(content).push(text).drop_last() =~= texts_in(content));
}

/// The texts of a list of stored blocks are those of its text blocks, in order.
pub proof fn a_stored_text_is_found(list: Seq<JsonModel>, block: JsonModel)
    ensures
        text_blocks(Seq::empty()).len() == 0,
        text_blocks(list.push(block)) == if block.str_at("type"@) == Some("text"@)
            && block.str_at("text"@) is Some {
            text_blocks(list).push(block.str_at("text"@)->0)
        } else {
            text_blocks(list)
        },
{
    assert(list.push(block).drop_last() =~= list);
}

/// Whoever spoke, the assistant alone is read back as the assistant, and a
/// message that is a plain text as one text block.
pub proof fn a_stored_speaker_is_read_back(payload: JsonModel, text: Seq<char>)
    ensures
        MessageModel::from_json(payload).role == Role::Assistant <==> payload.get("role"@) == Some(
            JsonModel::Str("assistant"@),
        ),
        MessageModel::from_json(payload).role != Role::System,
        payload.get("content"@) == Some(JsonModel::Str(text)) ==> MessageModel::from_json(
            payload,
        ).content == seq![BlockModel::Text(text)],
        payload.get("content"@) is None ==> MessageModel::from_json(payload).content.len() == 0,
{
}

/// What is told of a message is its blocks, one by one and in order, each as it
/// is.
pub proof fn a_message_says_what_it_holds(message: Message, i: int)
    requires
        0 <= i < message.content@.len(),
    ensures
        message@.role == message.role,
        message@.content.len() == message.content@.len(),
        message.content@[i] matches ContentBlock::Text { text } ==> message@.content[i]
            == BlockModel::Text(text@),
        message.content@[i] matches ContentBlock::Other { block } ==> message@.content[i]
            == BlockModel::Other(block@),
{
}

/// A stored block is read as its text where it is a text block, and as itself
/// where it is anything else, in its place.
pub proof fn a_stored_block_is_read_as_it_is(list: Seq<JsonModel>, i: int, text: Seq<char>)
    requires
        0 <= i < list.len(),
    ensures
        blocks_of(list).len() == list.len(),
        list[i].get("type"@) == Some(JsonModel::Str("text"@)) && list[i].get("text"@) == Some(
            JsonModel::Str(text),
        ) ==> blocks_of(list)[i] == BlockModel::Text(text),
        list[i].get("type"@) != Some(JsonModel::Str("text"@)) ==> blocks_of(list)[i]
            == BlockModel::Other(list[i]),
{
}

} // verus!
