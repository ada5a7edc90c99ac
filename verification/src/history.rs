//! The history of a conversation as the account that sends it may see it.

use vstd::prelude::*;

use crate::ledger::query::filter_step;
use crate::ledger::standing::kept_by_filter;
use crate::text::copy_maybe;
use crate::text::copy_texts;
use crate::text::maybe;
use crate::text::same;
use crate::text::same_maybe;
use crate::text::texts;

verus! {

/// The account that a piece of server state belongs to.
#[derive(Debug, PartialEq, Eq)]
pub struct AccountScope {
    pub local_account_id: Option<String>,
    pub account_id: String,
    pub user_id: Option<String>,
}

/// The account that a piece of server state belongs to, with its texts as sequences of characters.
#[verifier::ext_equal]
pub struct ScopeModel {
    pub local_account_id: Option<Seq<char>>,
    pub account_id: Seq<char>,
    pub user_id: Option<Seq<char>>,
}

impl View for AccountScope {
    type V = ScopeModel;

    open spec fn view(&self) -> ScopeModel {
        ScopeModel {
            local_account_id: maybe(self.local_account_id),
            account_id: self.account_id@,
            user_id: maybe(self.user_id),
        }
    }
}

/// What an optional account stands for.
pub open spec fn scoped(account: Option<AccountScope>) -> Option<ScopeModel> {
    match account {
        Some(account) => Some(account@),
        None => None,
    }
}

/// What an optional reference to an account stands for.
pub open spec fn scope_at(account: Option<&AccountScope>) -> Option<ScopeModel> {
    match account {
        Some(account) => Some(account@),
        None => None,
    }
}

impl AccountScope {
    /// Whether two accounts are the same.
    pub fn same_as(&self, other: &AccountScope) -> (r: bool)
        ensures
            r == (self@ == other@),
    {
        same_maybe(&self.local_account_id, &other.local_account_id) && same(
            self.account_id.as_str(),
            other.account_id.as_str(),
        ) && same_maybe(&self.user_id, &other.user_id)
    }

    /// The same account again.
    pub fn copy(&self) -> (account: AccountScope)
        ensures
            account@ == self@,
    {
        AccountScope {
            local_account_id: copy_maybe(&self.local_account_id),
            account_id: self.account_id.clone(),
            user_id: copy_maybe(&self.user_id),
        }
    }
}

/// A part of what an agent said or a tool returned. `rest` is all else that the part holds, as it is
/// written down.
#[derive(Debug, PartialEq, Eq)]
#[allow(inconsistent_fields)]
pub enum ContentItem {
    InputText { text: String, rest: String },
    /// An image, by its address.
    InputImage { image_url: String, rest: String },
    EncryptedContent { encrypted_content: String, rest: String },
    /// Any other part, which never holds anything encrypted, as it is written down.
    Other(String),
}

/// A part of a content, with its texts as sequences of characters.
#[allow(inconsistent_fields)]
pub enum ContentModel {
    InputText { text: Seq<char>, rest: Seq<char> },
    InputImage { image_url: Seq<char>, rest: Seq<char> },
    EncryptedContent { encrypted_content: Seq<char>, rest: Seq<char> },
    Other(Seq<char>),
}

impl View for ContentItem {
    type V = ContentModel;

    open spec fn view(&self) -> ContentModel {
        match *self {
            ContentItem::InputText { text, rest } => ContentModel::InputText {
                text: text@,
                rest: rest@,
            },
            ContentItem::InputImage { image_url, rest } => ContentModel::InputImage {
                image_url: image_url@,
                rest: rest@,
            },
            ContentItem::EncryptedContent { encrypted_content, rest } =>
                ContentModel::EncryptedContent {
                encrypted_content: encrypted_content@,
                rest: rest@,
            },
            ContentItem::Other(part) => ContentModel::Other(part@),
        }
    }
}

/// What a list of parts stands for.
pub open spec fn contents(list: Seq<ContentItem>) -> Seq<ContentModel> {
    Seq::new(list.len(), |i: int| list[i]@)
}

/// What a tool returned: a text, or a list of parts.
#[derive(Debug, PartialEq, Eq)]
pub enum ToolOutput {
    Text(String),
    Items(Vec<ContentItem>),
}

/// What a tool returned, with its texts as sequences of characters.
pub enum OutputModel {
    Text(Seq<char>),
    Items(Seq<ContentModel>),
}

impl View for ToolOutput {
    type V = OutputModel;

    open spec fn view(&self) -> OutputModel {
        match *self {
            ToolOutput::Text(text) => OutputModel::Text(text@),
            ToolOutput::Items(items) => OutputModel::Items(contents(items@)),
        }
    }
}

/// A piece of conversation history. `rest` is all else that the piece holds, such as its identity and
/// whether a tool succeeded, as it is written down.
#[derive(Debug, PartialEq, Eq)]
#[allow(inconsistent_fields)]
pub enum ResponseItem {
    Reasoning { summary: Vec<String>, encrypted_content: Option<String>, rest: String },
    Compaction { encrypted_content: String, rest: String },
    ContextCompaction { encrypted_content: Option<String>, rest: String },
    FunctionCall {
        name: String,
        arguments: String,
        call_id: String,
        encrypted_function_args: Option<Vec<String>>,
        rest: String,
    },
    AgentMessage { author: String, recipient: String, content: Vec<ContentItem>, rest: String },
    FunctionCallOutput { call_id: String, output: ToolOutput, rest: String },
    CustomToolCallOutput { call_id: String, output: ToolOutput, rest: String },
    /// Any piece that never holds anything encrypted, as it is written down.
    Plain(String),
}

/// A piece of conversation history, with its texts as sequences of characters.
#[allow(inconsistent_fields)]
pub enum ItemModel {
    Reasoning { summary: Seq<Seq<char>>, encrypted_content: Option<Seq<char>>, rest: Seq<char> },
    Compaction { encrypted_content: Seq<char>, rest: Seq<char> },
    ContextCompaction { encrypted_content: Option<Seq<char>>, rest: Seq<char> },
    FunctionCall {
        name: Seq<char>,
        arguments: Seq<char>,
        call_id: Seq<char>,
        encrypted_function_args: Option<Seq<Seq<char>>>,
        rest: Seq<char>,
    },
    AgentMessage {
        author: Seq<char>,
        recipient: Seq<char>,
        content: Seq<ContentModel>,
        rest: Seq<char>,
    },
    FunctionCallOutput { call_id: Seq<char>, output: OutputModel, rest: Seq<char> },
    CustomToolCallOutput { call_id: Seq<char>, output: OutputModel, rest: Seq<char> },
    Plain(Seq<char>),
}

/// What an optional list of texts stands for.
pub open spec fn maybe_texts(list: Option<Vec<String>>) -> Option<Seq<Seq<char>>> {
    match list {
        Some(list) => Some(texts(list@)),
        None => None,
    }
}

impl View for ResponseItem {
    type V = ItemModel;

    open spec fn view(&self) -> ItemModel {
        match *self {
            ResponseItem::Reasoning { summary, encrypted_content, rest } => ItemModel::Reasoning {
                summary: texts(summary@),
                encrypted_content: maybe(encrypted_content),
                rest: rest@,
            },
            ResponseItem::Compaction { encrypted_content, rest } => ItemModel::Compaction {
                encrypted_content: encrypted_content@,
                rest: rest@,
            },
            ResponseItem::ContextCompaction { encrypted_content, rest } =>
                ItemModel::ContextCompaction {
                encrypted_content: maybe(encrypted_content),
                rest: rest@,
            },
            ResponseItem::FunctionCall {
                name,
                arguments,
                call_id,
                encrypted_function_args,
                rest,
            } => ItemModel::FunctionCall {
                name: name@,
                arguments: arguments@,
                call_id: call_id@,
                encrypted_function_args: maybe_texts(encrypted_function_args),
                rest: rest@,
            },
            ResponseItem::AgentMessage { author, recipient, content, rest } =>
                ItemModel::AgentMessage {
                author: author@,
                recipient: recipient@,
                content: contents(content@),
                rest: rest@,
            },
            ResponseItem::FunctionCallOutput { call_id, output, rest } =>
                ItemModel::FunctionCallOutput {
                call_id: call_id@,
                output: output@,
                rest: rest@,
            },
            ResponseItem::CustomToolCallOutput { call_id, output, rest } =>
                ItemModel::CustomToolCallOutput {
                call_id: call_id@,
                output: output@,
                rest: rest@,
            },
            ResponseItem::Plain(text) => ItemModel::Plain(text@),
        }
    }
}

/// The part can be read by any account.
pub open spec fn readable(content: ContentModel) -> bool {
    !(content is EncryptedContent)
}

/// The parts that any account can read, in order.
pub open spec fn readable_parts(list: Seq<ContentModel>) -> Seq<ContentModel> {
    list.filter(|content: ContentModel| readable(content))
}

/// What a tool returned, without what is encrypted.
pub open spec fn readable_output(output: OutputModel) -> OutputModel {
    match output {
        OutputModel::Text(text) => OutputModel::Text(text),
        OutputModel::Items(items) => OutputModel::Items(readable_parts(items)),
    }
}

/// What is left of a piece for an account that it does not belong to. Apart from what is encrypted it
/// keeps all that it holds.
pub open spec fn foreign_view(item: ItemModel) -> Option<ItemModel> {
    match item {
        ItemModel::Reasoning { encrypted_content: Some(_), .. } => None,
        ItemModel::Compaction { .. } => None,
        ItemModel::ContextCompaction { encrypted_content: Some(_), .. } => None,
        ItemModel::FunctionCall { name, arguments, call_id, rest, .. } => Some(
            ItemModel::FunctionCall {
                name,
                arguments,
                call_id,
                encrypted_function_args: None,
                rest,
            },
        ),
        ItemModel::AgentMessage { author, recipient, content, rest } => if readable_parts(
            content,
        ).len() == 0 {
            None
        } else {
            Some(
                ItemModel::AgentMessage {
                    author,
                    recipient,
                    content: readable_parts(content),
                    rest,
                },
            )
        },
        ItemModel::FunctionCallOutput { call_id, output, rest } => Some(
            ItemModel::FunctionCallOutput { call_id, output: readable_output(output), rest },
        ),
        ItemModel::CustomToolCallOutput { call_id, output, rest } => Some(
            ItemModel::CustomToolCallOutput { call_id, output: readable_output(output), rest },
        ),
        _ => Some(item),
    }
}

/// What an account sees of a piece: all of it where the piece is known to belong to that account.
pub open spec fn seen_by(item: ItemModel, owner: Option<ScopeModel>, account: Option<ScopeModel>) -> Option<
    ItemModel,
> {
    if account is Some && owner == account {
        Some(item)
    } else {
        foreign_view(item)
    }
}

/// A piece of history with what is known of its origin.
#[derive(Debug, PartialEq, Eq)]
pub struct ResponseItemEnvelope {
    pub item: ResponseItem,
    /// The account that the piece belongs to, where that is known.
    pub account_scope: Option<AccountScope>,
}

/// The same part again.
fn copy_content(content: &ContentItem) -> (r: ContentItem)
    ensures
        r@ == content@,
{
    match content {
        ContentItem::InputText { text, rest } => ContentItem::InputText {
            text: text.clone(),
            rest: rest.clone(),
        },
        ContentItem::InputImage { image_url, rest } => ContentItem::InputImage {
            image_url: image_url.clone(),
            rest: rest.clone(),
        },
        ContentItem::EncryptedContent { encrypted_content, rest } =>
            ContentItem::EncryptedContent {
            encrypted_content: encrypted_content.clone(),
            rest: rest.clone(),
        },
        ContentItem::Other(part) => ContentItem::Other(part.clone()),
    }
}

/// The same parts again, without those that are encrypted unless all are kept.
fn copy_parts(list: &Vec<ContentItem>, all: bool) -> (r: Vec<ContentItem>)
    ensures
        contents(r@) == if all {
            contents(list@)
        } else {
            readable_parts(contents(list@))
        },
{
    let ghost whole = contents(list@);
    let ghost keep = |content: ContentModel| all || readable(content);
    let mut out: Vec<ContentItem> = Vec::new();
    let mut i: usize = 0;
    proof {
        reveal(Seq::filter);
        assert(whole.take(0) == Seq::<ContentModel>::empty());
        assert(contents(out@) == whole.take(0).filter(keep));
    }
    while i < list.len()
        invariant
            i <= list@.len(),
            whole == contents(list@),
            keep == (|content: ContentModel| all || readable(content)),
            contents(out@) == whole.take(i as int).filter(keep),
        decreases list@.len() - i,
    {
        proof {
            filter_step(whole, keep, i as int);
            assert(whole[i as int] == list@[i as int]@);
        }
        let sealed = matches!(&list[i], ContentItem::EncryptedContent { .. });
        if all || !sealed {
            let part = copy_content(&list[i]);
            assert(contents(out@.push(part)) == contents(out@).push(part@));
            out.push(part);
        }
        i += 1;
    }
    proof {
        assert(whole.take(whole.len() as int) == whole);
        if all {
            keep_all(whole, keep);
        } else {
            assert(keep =~= (|content: ContentModel| readable(content)));
        }
    }
    out
}

/// A test that everything passes keeps everything.
proof fn keep_all(list: Seq<ContentModel>, keep: spec_fn(ContentModel) -> bool)
    requires
        forall|i: int| 0 <= i < list.len() ==> keep(#[trigger] list[i]),
    ensures
        list.filter(keep) == list,
    decreases list.len(),
{
    reveal(Seq::filter);
    if list.len() > 0 {
        keep_all(list.drop_last(), keep);
        assert(list.drop_last().push(list.last()) == list);
    }
}

/// The same output again, without what is encrypted unless all is kept.
fn copy_output(output: &ToolOutput, all: bool) -> (r: ToolOutput)
    ensures
        r@ == if all {
            output@
        } else {
            readable_output(output@)
        },
{
    match output {
        ToolOutput::Text(text) => ToolOutput::Text(text.clone()),
        ToolOutput::Items(items) => ToolOutput::Items(copy_parts(items, all)),
    }
}

/// The same optional list again.
fn copy_args(list: &Option<Vec<String>>) -> (r: Option<Vec<String>>)
    ensures
        maybe_texts(r) == maybe_texts(*list),
{
    match list {
        Some(list) => Some(copy_texts(list)),
        None => None,
    }
}

impl ResponseItem {
    /// The same piece again.
    pub fn copy(&self) -> (item: ResponseItem)
        ensures
            item@ == self@,
    {
        match self {
            ResponseItem::Reasoning { summary, encrypted_content, rest } =>
                ResponseItem::Reasoning {
                summary: copy_texts(summary),
                encrypted_content: copy_maybe(encrypted_content),
                rest: rest.clone(),
            },
            ResponseItem::Compaction { encrypted_content, rest } => ResponseItem::Compaction {
                encrypted_content: encrypted_content.clone(),
                rest: rest.clone(),
            },
            ResponseItem::ContextCompaction { encrypted_content, rest } =>
                ResponseItem::ContextCompaction {
                encrypted_content: copy_maybe(encrypted_content),
                rest: rest.clone(),
            },
            ResponseItem::FunctionCall {
                name,
                arguments,
                call_id,
                encrypted_function_args,
                rest,
            } => ResponseItem::FunctionCall {
                name: name.clone(),
                arguments: arguments.clone(),
                call_id: call_id.clone(),
                encrypted_function_args: copy_args(encrypted_function_args),
                rest: rest.clone(),
            },
            ResponseItem::AgentMessage { author, recipient, content, rest } =>
                ResponseItem::AgentMessage {
                author: author.clone(),
                recipient: recipient.clone(),
                content: copy_parts(content, true),
                rest: rest.clone(),
            },
            ResponseItem::FunctionCallOutput { call_id, output, rest } =>
                ResponseItem::FunctionCallOutput {
                call_id: call_id.clone(),
                output: copy_output(output, true),
                rest: rest.clone(),
            },
            ResponseItem::CustomToolCallOutput { call_id, output, rest } =>
                ResponseItem::CustomToolCallOutput {
                call_id: call_id.clone(),
                output: copy_output(output, true),
                rest: rest.clone(),
            },
            ResponseItem::Plain(text) => ResponseItem::Plain(text.clone()),
        }
    }
}

impl ResponseItemEnvelope {
    /// A piece of unknown origin.
    pub fn new(item: ResponseItem) -> (envelope: Self)
        ensures
            envelope.item@ == item@,
            envelope.account_scope is None,
    {
        ResponseItemEnvelope { item, account_scope: None }
    }

    /// Projects history for the account that actually sends a request. Unknown ownership is treated
    /// like a different account.
    pub fn for_account(&self, account: Option<&AccountScope>) -> (r: Option<ResponseItem>)
        ensures
            (match r {
                Some(item) => Some(item@),
                None => None,
            }) == seen_by(self.item@, scoped(self.account_scope), scope_at(account)),
    {
        if let Some(account) = account {
            if let Some(owner) = &self.account_scope {
                if owner.same_as(account) {
                    return Some(self.item.copy());
                }
            }
        }
        match &self.item {
            ResponseItem::Reasoning { encrypted_content: Some(_), .. } => None,
            ResponseItem::Compaction { .. } => None,
            ResponseItem::ContextCompaction { encrypted_content: Some(_), .. } => None,
            ResponseItem::FunctionCall { name, arguments, call_id, rest, .. } => Some(
                ResponseItem::FunctionCall {
                    name: name.clone(),
                    arguments: arguments.clone(),
                    call_id: call_id.clone(),
                    encrypted_function_args: None,
                    rest: rest.clone(),
                },
            ),
            ResponseItem::AgentMessage { author, recipient, content, rest } => {
                let content = copy_parts(content, false);
                if content.len() == 0 {
                    assert(contents(content@).len() == 0);
                    return None;
                }
                assert(contents(content@).len() == content@.len());
                Some(
                    ResponseItem::AgentMessage {
                        author: author.clone(),
                        recipient: recipient.clone(),
                        content,
                        rest: rest.clone(),
                    },
                )
            },
            ResponseItem::FunctionCallOutput { call_id, output, rest } => Some(
                ResponseItem::FunctionCallOutput {
                    call_id: call_id.clone(),
                    output: copy_output(output, false),
                    rest: rest.clone(),
                },
            ),
            ResponseItem::CustomToolCallOutput { call_id, output, rest } => Some(
                ResponseItem::CustomToolCallOutput {
                    call_id: call_id.clone(),
                    output: copy_output(output, false),
                    rest: rest.clone(),
                },
            ),
            _ => Some(self.item.copy()),
        }
    }
}

/// Pieces that a turn produced, each marked with the account that sent the request.
pub fn account_envelopes(items: Vec<ResponseItem>, account: Option<&AccountScope>) -> (r: Vec<
    ResponseItemEnvelope,
>)
    ensures
        r@.len() == items@.len(),
        forall|i: int|
            0 <= i < items@.len() ==> (#[trigger] r@[i]).item@ == items@[i]@ && scoped(
                r@[i].account_scope,
            ) == scope_at(account),
{
    let mut out: Vec<ResponseItemEnvelope> = Vec::new();
    let mut i: usize = 0;
    while i < items.len()
        invariant
            i <= items@.len(),
            out@.len() == i,
            forall|j: int|
                0 <= j < i ==> (#[trigger] out@[j]).item@ == items@[j]@ && scoped(
                    out@[j].account_scope,
                ) == scope_at(account),
        decreases items@.len() - i,
    {
        let account_scope = match account {
            Some(account) => Some(account.copy()),
            None => None,
        };
        out.push(ResponseItemEnvelope { item: items[i].copy(), account_scope });
        i += 1;
    }
    out
}

/// A piece of which every account can read every part.
pub open spec fn all_readable(item: ItemModel) -> bool {
    match item {
        ItemModel::Reasoning { encrypted_content, .. } => encrypted_content is None,
        ItemModel::Compaction { .. } => false,
        ItemModel::ContextCompaction { encrypted_content, .. } => encrypted_content is None,
        ItemModel::FunctionCall { encrypted_function_args, .. } => encrypted_function_args is None,
        ItemModel::AgentMessage { content, .. } => parts_readable(content),
        ItemModel::FunctionCallOutput { output, .. } => output matches OutputModel::Items(items)
            ==> parts_readable(items),
        ItemModel::CustomToolCallOutput { output, .. } => output matches OutputModel::Items(items)
            ==> parts_readable(items),
        ItemModel::Plain(_) => true,
    }
}

/// Every part can be read by any account.
pub open spec fn parts_readable(list: Seq<ContentModel>) -> bool {
    forall|i: int| 0 <= i < list.len() ==> readable(#[trigger] list[i])
}

/// What is kept of a list of parts is readable, and filtering it again changes nothing.
proof fn readable_kept(list: Seq<ContentModel>)
    ensures
        parts_readable(readable_parts(list)),
        readable_parts(readable_parts(list)) == readable_parts(list),
    decreases list.len(),
{
    let keep = |content: ContentModel| readable(content);
    reveal(Seq::filter);
    if list.len() > 0 {
        readable_kept(list.drop_last());
        let before = readable_parts(list.drop_last());
        assert forall|i: int| 0 <= i < readable_parts(list).len() implies readable(
            #[trigger] readable_parts(list)[i],
        ) by {
            if i < before.len() {
                assert(readable(before[i]));
            }
        }
    }
    keep_all(readable_parts(list), keep);
}

/// Nothing encrypted reaches an account that it does not belong to, nor one of which it is not
/// known to belong to it.
pub proof fn ciphertext_stays_with_its_account(
    item: ItemModel,
    owner: Option<ScopeModel>,
    account: Option<ScopeModel>,
)
    requires
        account is None || owner != account,
        seen_by(item, owner, account) is Some,
    ensures
        all_readable(seen_by(item, owner, account)->0),
{
    projection_readable(item);
}

/// What is left of a piece for a foreign account is readable and is left whole when it is projected
/// again.
proof fn projection_readable(item: ItemModel)
    ensures
        foreign_view(item) matches Some(left) ==> all_readable(left) && foreign_view(left)
            == Some(left),
{
    match item {
        ItemModel::AgentMessage { content, .. } => readable_kept(content),
        ItemModel::FunctionCallOutput { output: OutputModel::Items(items), .. } => readable_kept(
            items,
        ),
        ItemModel::CustomToolCallOutput { output: OutputModel::Items(items), .. } => readable_kept(
            items,
        ),
        _ => {},
    }
}

/// Projecting what an account sees once more, whatever is known of its origin then, changes
/// nothing.
pub proof fn projection_is_idempotent(
    item: ItemModel,
    owner: Option<ScopeModel>,
    later: Option<ScopeModel>,
    account: Option<ScopeModel>,
)
    requires
        account is None || owner != account,
        seen_by(item, owner, account) is Some,
    ensures
        seen_by(seen_by(item, owner, account)->0, later, account) == seen_by(item, owner, account),
{
    projection_readable(item);
}

/// An account sees all of what is known to belong to it, and of what every account can read all
/// too, but for a message without any content.
pub proof fn owned_and_readable_state_is_kept(
    item: ItemModel,
    owner: Option<ScopeModel>,
    account: Option<ScopeModel>,
)
    requires
        account is Some && owner == account || all_readable(item) && !(
        item matches ItemModel::AgentMessage { content, .. } && content.len() == 0),
    ensures
        seen_by(item, owner, account) == Some(item),
{
    let keep = |content: ContentModel| readable(content);
    if !(account is Some && owner == account) {
        match item {
            ItemModel::AgentMessage { content, .. } => keep_all(content, keep),
            ItemModel::FunctionCallOutput { output: OutputModel::Items(items), .. } => keep_all(
                items,
                keep,
            ),
            ItemModel::CustomToolCallOutput { output: OutputModel::Items(items), .. } => keep_all(
                items,
                keep,
            ),
            _ => {},
        }
    }
}

/// What an account sees of a piece that is not known to be its own: everything that is not encrypted stays,
/// in order, and a piece goes away only where nothing but what is encrypted would be left of it.
pub proof fn foreign_pieces_keep_what_is_readable(
    item: ItemModel,
    owner: Option<ScopeModel>,
    account: Option<ScopeModel>,
    part: ContentModel,
)
    requires
        account is None || owner != account,
    ensures
        ({
            let seen = seen_by(item, owner, account);
            match item {
                ItemModel::Reasoning { encrypted_content, .. } => seen == if encrypted_content is None {
                    Some(item)
                } else {
                    None
                },
                ItemModel::ContextCompaction { encrypted_content, .. } => seen
                    == if encrypted_content is None {
                    Some(item)
                } else {
                    None
                },
                ItemModel::Compaction { .. } => seen is None,
                ItemModel::Plain(_) => seen == Some(item),
                ItemModel::FunctionCall { name, arguments, call_id, rest, .. } => seen == Some(
                    ItemModel::FunctionCall {
                        name,
                        arguments,
                        call_id,
                        encrypted_function_args: None,
                        rest,
                    },
                ),
                ItemModel::AgentMessage { author, recipient, content, rest } => {
                    &&& seen is None <==> (forall|i: int|
                        0 <= i < content.len() ==> #[trigger] content[i] is EncryptedContent)
                    &&& seen is Some ==> (seen->0 matches ItemModel::AgentMessage {
                        author: a,
                        recipient: r,
                        content: c,
                        rest: e,
                    } && a == author && r == recipient && e == rest && (c.contains(part)
                        <==> content.contains(part) && !(part is EncryptedContent)))
                },
                ItemModel::FunctionCallOutput { call_id, output, rest } => {
                    seen matches Some(ItemModel::FunctionCallOutput {
                        call_id: c,
                        output: o,
                        rest: e,
                    }) && c == call_id && e == rest && output_keeps(output, o, part)
                },
                ItemModel::CustomToolCallOutput { call_id, output, rest } => {
                    seen matches Some(ItemModel::CustomToolCallOutput {
                        call_id: c,
                        output: o,
                        rest: e,
                    }) && c == call_id && e == rest && output_keeps(output, o, part)
                },
            }
        }),
{
    let keep = |content: ContentModel| readable(content);
    match item {
        ItemModel::AgentMessage { content, .. } => {
            let parts = readable_parts(content);
            kept_by_filter(content, keep, part);
            if parts.len() > 0 {
                assert(parts.contains(parts[0]));
                kept_by_filter(content, keep, parts[0]);
                let i = choose|i: int| 0 <= i < content.len() && content[i] == parts[0];
                assert(!(content[i] is EncryptedContent));
            } else {
                assert forall|i: int| 0 <= i < content.len() implies #[trigger] content[i]
                    is EncryptedContent by {
                    kept_by_filter(content, keep, content[i]);
                    if !(content[i] is EncryptedContent) {
                        assert(content.contains(content[i]));
                        assert(parts.contains(content[i]));
                    }
                }
            }
        },
        ItemModel::FunctionCallOutput { output, .. } => {
            if let OutputModel::Items(items) = output {
                kept_by_filter(items, keep, part);
            }
        },
        ItemModel::CustomToolCallOutput { output, .. } => {
            if let OutputModel::Items(items) = output {
                kept_by_filter(items, keep, part);
            }
        },
        _ => {},
    }
}

/// What a tool returned keeps its text, and of its parts those that are not encrypted.
pub open spec fn output_keeps(before: OutputModel, after: OutputModel, part: ContentModel) -> bool {
    match before {
        OutputModel::Text(text) => after == OutputModel::Text(text),
        OutputModel::Items(items) => after matches OutputModel::Items(kept) && (kept.contains(part)
            <==> items.contains(part) && !(part is EncryptedContent)),
    }
}

} // verus!
