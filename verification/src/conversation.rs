//! What the conversation view shows of a content block and how it names an
//! update.

use vstd::prelude::*;
use vstd::string::{StrSliceExecFns, StringExecFns};
use vstd::utf8::{encode_scalar, encode_utf8};
use crate::update::{ChunkKind, EventKind, Update, UpdateView};

verus! {

/// A resource embedded in a content block.
#[derive(Debug)]
pub enum EmbeddedResource {
    /// A text resource and its content.
    Text { uri: String, text: String },
    /// A binary resource.
    Blob { uri: String },
    /// A resource of a kind this client does not know.
    Unknown,
}

/// One block of the content of a message.
#[derive(Debug)]
pub enum ContentBlock {
    Text { text: String },
    Image { mime_type: String },
    Audio { mime_type: String },
    ResourceLink { name: String },
    Resource { resource: EmbeddedResource },
    /// A block of a kind this client does not know.
    Unknown,
}

/// Mathematical value of an [`EmbeddedResource`].
pub enum EmbeddedResourceView {
    Text { uri: Seq<char>, text: Seq<char> },
    Blob { uri: Seq<char> },
    Unknown,
}

/// Mathematical value of a [`ContentBlock`].
pub enum ContentBlockView {
    Text { text: Seq<char> },
    Image { mime_type: Seq<char> },
    Audio { mime_type: Seq<char> },
    ResourceLink { name: Seq<char> },
    Resource { resource: EmbeddedResourceView },
    Unknown,
}

impl View for EmbeddedResource {
    type V = EmbeddedResourceView;

    open spec fn view(&self) -> EmbeddedResourceView {
        match self {
            EmbeddedResource::Text { uri, text } => EmbeddedResourceView::Text {
                uri: uri@,
                text: text@,
            },
            EmbeddedResource::Blob { uri } => EmbeddedResourceView::Blob { uri: uri@ },
            EmbeddedResource::Unknown => EmbeddedResourceView::Unknown,
        }
    }
}

impl View for ContentBlock {
    type V = ContentBlockView;

    open spec fn view(&self) -> ContentBlockView {
        match self {
            ContentBlock::Text { text } => ContentBlockView::Text { text: text@ },
            ContentBlock::Image { mime_type } => ContentBlockView::Image { mime_type: mime_type@ },
            ContentBlock::Audio { mime_type } => ContentBlockView::Audio { mime_type: mime_type@ },
            ContentBlock::ResourceLink { name } => ContentBlockView::ResourceLink { name: name@ },
            ContentBlock::Resource { resource } => ContentBlockView::Resource {
                resource: resource@,
            },
            ContentBlock::Unknown => ContentBlockView::Unknown,
        }
    }
}

/// The most bytes of a text resource that are shown with it.
pub const PREVIEW_BYTES: usize = 200;

/// The number of bytes that a character takes in UTF-8.
pub open spec fn utf8_width(c: char) -> int {
    encode_scalar(c as u32).len() as int
}

/// The longest run of characters from the start of `text` whose UTF-8
/// encodings take at most `budget` bytes together.
pub open spec fn fitting_prefix(text: Seq<char>, budget: int) -> Seq<char>
    decreases text.len(),
{
    if text.len() == 0 || utf8_width(text[0]) > budget {
        Seq::empty()
    } else {
        seq![text[0]] + fitting_prefix(text.drop_first(), budget - utf8_width(text[0]))
    }
}

/// What is shown for an embedded resource.
pub open spec fn resource_text(resource: EmbeddedResourceView) -> Seq<char> {
    match resource {
        EmbeddedResourceView::Text { uri, text } => "[Resource: "@ + uri + "]\n"@ + fitting_prefix(
            text,
            PREVIEW_BYTES as int,
        ),
        EmbeddedResourceView::Blob { uri } => "[Binary Resource: "@ + uri + "]"@,
        EmbeddedResourceView::Unknown => "[Unknown Resource]"@,
    }
}

/// What is shown for a content block.
pub open spec fn content_text(content: ContentBlockView) -> Seq<char> {
    match content {
        ContentBlockView::Text { text } => text,
        ContentBlockView::Image { mime_type } => "[Image: "@ + mime_type + "]"@,
        ContentBlockView::Audio { mime_type } => "[Audio: "@ + mime_type + "]"@,
        ContentBlockView::ResourceLink { name } => "[Resource: "@ + name + "]"@,
        ContentBlockView::Resource { resource } => resource_text(resource),
        ContentBlockView::Unknown => "[Unknown Content]"@,
    }
}

/// The name by which an update is logged.
pub open spec fn type_name_of(update: UpdateView) -> Seq<char> {
    match update {
        UpdateView::Chunk { kind, .. } => match kind {
            ChunkKind::UserMessage => "UserMessageChunk"@,
            ChunkKind::AgentMessage => "AgentMessageChunk"@,
            ChunkKind::AgentThought => "AgentThoughtChunk"@,
        },
        UpdateView::Event { event, .. } => match event {
            EventKind::ToolCall => "ToolCall"@,
            EventKind::ToolCallUpdate => "ToolCallUpdate"@,
            EventKind::Plan => "Plan"@,
            EventKind::AvailableCommandsUpdate => "AvailableCommandsUpdate"@,
            EventKind::CurrentModeUpdate => "CurrentModeUpdate"@,
            EventKind::MessageComplete => "Unknown/Future SessionUpdate Type"@,
            EventKind::Other => "Unknown/Future SessionUpdate Type"@,
        },
    }
}

/// The number of bytes that `c` takes in UTF-8.
pub fn char_width(c: char) -> (width: usize)
    ensures
        width == utf8_width(c),
        1 <= width <= 4,
{
    let scalar = c as u32;
    proof {
        vstd::utf8::char_is_scalar(c);
    }
    if scalar <= 0x7F {
        1
    } else if scalar <= 0x7FF {
        2
    } else if scalar <= 0xFFFF {
        3
    } else {
        4
    }
}

/// The start of `text` that is shown with a resource: the longest run of
/// whole characters that takes at most `budget` bytes.
pub fn preview(text: &str, budget: usize) -> (shown: &str)
    ensures
        shown@ == fitting_prefix(text@, budget as int),
{
    let total = text.unicode_len();
    let mut taken: usize = 0;
    let mut used: usize = 0;
    let mut full = false;
    assert(text@.subrange(0, 0) + fitting_prefix(text@.subrange(0, text@.len() as int), budget as int)
        =~= fitting_prefix(text@, budget as int)) by {
        assert(text@.subrange(0, text@.len() as int) =~= text@);
    }
    while taken < total && !full
        invariant
            total == text@.len(),
            taken <= total,
            used <= budget,
            fitting_prefix(text@, budget as int) == text@.subrange(0, taken as int) + fitting_prefix(
                text@.subrange(taken as int, text@.len() as int),
                budget - used,
            ),
            full ==> fitting_prefix(text@.subrange(taken as int, text@.len() as int), budget - used)
                == Seq::<char>::empty(),
        decreases total - taken + (if full { 0int } else { 1int }),
    {
        let width = char_width(text.get_char(taken));
        let ghost rest = text@.subrange(taken as int, text@.len() as int);
        assert(rest[0] == text@[taken as int]);
        if width > budget - used {
            full = true;
        } else {
            proof {
                assert(rest.drop_first() =~= text@.subrange(taken + 1, text@.len() as int));
                assert(text@.subrange(0, taken as int) + (seq![rest[0]] + fitting_prefix(
                    rest.drop_first(),
                    budget - used - width,
                )) =~= text@.subrange(0, taken + 1) + fitting_prefix(
                    rest.drop_first(),
                    budget - used - width,
                ));
            }
            used = used + width;
            taken = taken + 1;
        }
    }
    proof {
        let rest = text@.subrange(taken as int, text@.len() as int);
        assert(fitting_prefix(rest, budget - used) =~= Seq::<char>::empty());
        assert(text@.subrange(0, taken as int) + Seq::<char>::empty() =~= text@.subrange(
            0,
            taken as int,
        ));
    }
    text.substring_char(0, taken)
}

/// `opening`, `inner` and `closing`, joined.
fn bracketed(opening: &str, inner: &str, closing: &str) -> (text: String)
    ensures
        text@ == opening@ + inner@ + closing@,
{
    let mut text = opening.to_owned();
    text.append(inner);
    text.append(closing);
    text
}

/// The text shown in place of a content block: the text of a text block,
/// and for every other block a note in brackets that names it. A text
/// resource is shown with the start of its content, cut after the last
/// whole character within the first 200 bytes.
pub fn extract_text_from_content(content: &ContentBlock) -> (text: String)
    ensures
        text@ == content_text(content@),
{
    match content {
        ContentBlock::Text { text } => text.clone(),
        ContentBlock::Image { mime_type } => bracketed("[Image: ", mime_type.as_str(), "]"),
        ContentBlock::Audio { mime_type } => bracketed("[Audio: ", mime_type.as_str(), "]"),
        ContentBlock::ResourceLink { name } => bracketed("[Resource: ", name.as_str(), "]"),
        ContentBlock::Resource { resource } => match resource {
            EmbeddedResource::Text { uri, text } => {
                let mut shown = bracketed("[Resource: ", uri.as_str(), "]\n");
                shown.append(preview(text.as_str(), PREVIEW_BYTES));
                shown
            },
            EmbeddedResource::Blob { uri } => bracketed("[Binary Resource: ", uri.as_str(), "]"),
            EmbeddedResource::Unknown => "[Unknown Resource]".to_owned(),
        },
        ContentBlock::Unknown => "[Unknown Content]".to_owned(),
    }
}

/// The update that a streamed block of `kind` is saved as, if the block can
/// be merged with its neighbours: a text block is a fragment of its text.
/// Any other block cannot be joined to text and is no fragment.
pub open spec fn fragment_of(kind: ChunkKind, content: ContentBlockView) -> Option<UpdateView> {
    match content {
        ContentBlockView::Text { text } => Some(UpdateView::Chunk { kind, text }),
        _ => None,
    }
}

/// The chunk update that a streamed block of `kind` is saved as; `None` for
/// a block that is not text, which is to be saved as an update of its own.
pub fn mergeable_chunk(kind: ChunkKind, content: &ContentBlock) -> (update: Option<Update>)
    ensures
        match update {
            Some(update) => fragment_of(kind, content@) == Some(update@),
            None => fragment_of(kind, content@) is None,
        },
{
    match content {
        ContentBlock::Text { text } => Some(Update::Chunk { kind, text: text.clone() }),
        _ => None,
    }
}

/// The name by which an update is logged: the name of its kind, and one
/// common name for the kinds this client does not tell apart.
pub fn session_update_type_name(update: &Update) -> (name: &'static str)
    ensures
        name@ == type_name_of(update@),
{
    match update {
        Update::Chunk { kind, .. } => match kind {
            ChunkKind::UserMessage => "UserMessageChunk",
            ChunkKind::AgentMessage => "AgentMessageChunk",
            ChunkKind::AgentThought => "AgentThoughtChunk",
        },
        Update::Event { event, .. } => match event {
            EventKind::ToolCall => "ToolCall",
            EventKind::ToolCallUpdate => "ToolCallUpdate",
            EventKind::Plan => "Plan",
            EventKind::AvailableCommandsUpdate => "AvailableCommandsUpdate",
            EventKind::CurrentModeUpdate => "CurrentModeUpdate",
            EventKind::MessageComplete => "Unknown/Future SessionUpdate Type",
            EventKind::Other => "Unknown/Future SessionUpdate Type",
        },
    }
}

/// A thought of the agent as the conversation shows it: its text so far,
/// and whether the text is folded out.
#[derive(Debug)]
pub struct AgentThoughtItemState {
    text: String,
    open: bool,
}

impl AgentThoughtItemState {
    /// The text of the thought so far.
    pub closed spec fn text(&self) -> Seq<char> {
        self.text@
    }

    /// Whether the thought is folded out.
    pub closed spec fn is_open(&self) -> bool {
        self.open
    }

    /// A thought that holds `text` and is folded in.
    pub fn new(text: &str) -> (item: AgentThoughtItemState)
        ensures
            item.text() == text@,
            !item.is_open(),
    {
        AgentThoughtItemState { text: text.to_owned(), open: false }
    }

    /// Puts `text` behind the text of the thought, as it is streamed.
    pub fn append_text(&mut self, text: &str)
        ensures
            final(self).text() == old(self).text() + text@,
            final(self).is_open() == old(self).is_open(),
    {
        self.text.append(text);
    }

    /// Folds the thought out if it is folded in, and in if it is out.
    pub fn toggle(&mut self)
        ensures
            final(self).is_open() == !old(self).is_open(),
            final(self).text() == old(self).text(),
    {
        self.open = !self.open;
    }

    /// Whether there is text to fold out.
    pub fn has_content(&self) -> (some: bool)
        ensures
            some == (self.text().len() > 0),
    {
        !self.text.as_str().is_empty()
    }

    /// The text of the thought so far.
    pub fn shown_text(&self) -> (text: &str)
        ensures
            text@ == self.text(),
    {
        self.text.as_str()
    }

    /// Whether the thought is folded out.
    pub fn open(&self) -> (open: bool)
        ensures
            open == self.is_open(),
    {
        self.open
    }
}

/// A resource attached to a message.
#[derive(Debug)]
pub struct ResourceInfo {
    pub name: String,
    pub mime_type: Option<String>,
    /// The content of a text resource.
    pub text: Option<String>,
}

/// The number of line feeds among `bytes`.
pub open spec fn line_feeds(bytes: Seq<u8>) -> nat
    decreases bytes.len(),
{
    if bytes.len() == 0 {
        0
    } else {
        line_feeds(bytes.drop_last()) + if bytes.last() == 10u8 {
            1nat
        } else {
            0nat
        }
    }
}

/// The number of lines of a text, given as its bytes in UTF-8: each line
/// feed ends a line, and what follows the last line feed is a line if it is
/// not empty.
pub open spec fn line_count_of(bytes: Seq<u8>) -> nat {
    if bytes.len() == 0 || bytes.last() == 10u8 {
        line_feeds(bytes)
    } else {
        line_feeds(bytes) + 1
    }
}

/// The number of lines of `text`.
pub fn line_count(text: &str) -> (count: usize)
    ensures
        count == line_count_of(encode_utf8(text@)),
{
    let bytes = text.as_bytes();
    let total = bytes.len();
    let mut feeds: usize = 0;
    let mut i: usize = 0;
    assert(bytes@.subrange(0, 0) =~= Seq::<u8>::empty());
    while i < total
        invariant
            total == bytes@.len(),
            i <= total,
            feeds <= i,
            i > 0 && bytes@[i - 1] != 10u8 ==> feeds < i,
            feeds == line_feeds(bytes@.subrange(0, i as int)),
        decreases total - i,
    {
        assert(bytes@.subrange(0, i + 1).drop_last() =~= bytes@.subrange(0, i as int));
        if bytes[i] == 10u8 {
            feeds += 1;
        }
        i += 1;
    }
    assert(bytes@.subrange(0, total as int) =~= bytes@);
    if total == 0 || bytes[total - 1] == 10u8 {
        feeds
    } else {
        feeds + 1
    }
}

/// A resource as the conversation shows it: the resource, and whether its
/// content is folded out.
#[derive(Debug)]
pub struct ResourceItemState {
    resource: ResourceInfo,
    open: bool,
}

impl ResourceItemState {
    /// The resource shown.
    pub closed spec fn info(&self) -> ResourceInfo {
        self.resource
    }

    /// Whether the content is folded out.
    pub closed spec fn is_open(&self) -> bool {
        self.open
    }

    /// An item for `resource`, folded in.
    pub fn new(resource: ResourceInfo) -> (item: ResourceItemState)
        ensures
            item.info() == resource,
            !item.is_open(),
    {
        ResourceItemState { resource, open: false }
    }

    /// Folds the content out if it is folded in, and in if it is out.
    pub fn toggle(&mut self)
        ensures
            final(self).is_open() == !old(self).is_open(),
            final(self).info() == old(self).info(),
    {
        self.open = !self.open;
    }

    /// The resource shown.
    pub fn resource(&self) -> (resource: &ResourceInfo)
        ensures
            *resource == self.info(),
    {
        &self.resource
    }

    /// Whether the content is folded out.
    pub fn open(&self) -> (open: bool)
        ensures
            open == self.is_open(),
    {
        self.open
    }

    /// Whether the resource has content to fold out.
    pub fn has_content(&self) -> (some: bool)
        ensures
            some == (self.info().text is Some),
    {
        self.resource.text.is_some()
    }

    /// The number of lines of the content, 0 for a resource without
    /// content.
    pub fn content_lines(&self) -> (count: usize)
        ensures
            count == match self.info().text {
                Some(text) => line_count_of(encode_utf8(text@)),
                None => 0,
            },
    {
        match &self.resource.text {
            Some(text) => line_count(text.as_str()),
            None => 0,
        }
    }
}

} // verus!
