//! How the bot reacts to messages.

use crate::active::{entries_of, handles_of, registered, unregistered, ActiveSyncs, Entries};
use crate::album::{AlbumMeta, Image, ImageData};
use crate::links::{gallery_address, page_suffix, parsed_url, without_last_segment};
use crate::markdown::{as_code, code_inline, escape, escaped, link, linked};
use crate::message::{first_found, first_match, law_first_found, ScanEnd};
use crate::node::opt_text;
use crate::request::{
    delivery, delivery_view, first_word, law_page_command, law_plain_command, law_range_command,
    parse_request, range_view, Delivery, PageRange,
};
use crate::sync::Synchronizer;
use crate::text::{
    decimal, decimal_text, is_word, signed_decimal, signed_decimal_text, words,
};
use std::collections::HashSet;
use vstd::prelude::*;

verus! {

broadcast use vstd::std_specs::hash::group_hash_axioms;

/// How similar a search result must be, in percent.
pub const MIN_SIMILARITY: u8 = 70;

/// How similar a search result must be in a private chat, in percent.
pub const MIN_SIMILARITY_PRIVATE: u8 = 50;

/// What users can ask for.
pub enum Command {
    Help,
    Version,
    Id,
    Sync(String),
    Cancel,
}

/// What administrators can ask for.
pub enum AdminCommand {
    Delete(String),
}

/// Who may use the bot.
pub struct WhitelistConfig {
    pub enabled: bool,
    pub ids: Vec<i64>,
}

/// Where a message came from.
#[derive(Clone, Copy, Debug, PartialEq, Eq, Structural)]
pub struct Chat {
    pub id: i64,
    pub private: bool,
}

/// A synchronization to run once the prompt for it was sent.
pub struct Job {
    /// The prompt, in markup.
    pub prompt: String,
    pub url: String,
    pub delivery: Delivery,
}

/// A synchronization to run, as plain values.
pub struct JobView {
    pub prompt: Seq<char>,
    pub url: Seq<char>,
    pub delivery: Delivery,
}

impl View for Job {
    type V = JobView;

    open spec fn view(&self) -> JobView {
        JobView { prompt: self.prompt@, url: self.url@, delivery: self.delivery }
    }
}

/// The synchronization of a range.
pub open spec fn job_view(url: Seq<char>, range: PageRange) -> JobView {
    JobView {
        prompt: escaped("Syncing url "@ + url),
        url,
        delivery: delivery_view(range),
    }
}

impl Job {
    /// The synchronization of a range.
    pub fn new(url: String, start: Option<usize>, end: Option<usize>) -> (r: Self)
        requires
            start is Some && end is Some ==> start->0 <= end->0,
        ensures
            r@ == job_view(url@, (start, end)),
    {
        let prompt = escape("Syncing url ".to_string().concat(url.as_str()).as_str());
        Job { prompt, url, delivery: delivery(start, end) }
    }
}

/// What the bot does about a message. Unless it does nothing at all, no other
/// reaction to the message is looked for.
pub enum Reaction<T> {
    /// Nothing at all.
    Continue,
    /// Nothing that can be seen.
    Ignore,
    /// A reply, in markup.
    Reply(String),
    /// Cancels synchronizations, with a reply in markup.
    Cancel { handles: Vec<T>, text: String },
    /// Starts a synchronization.
    Start(Job),
}

/// What the bot does about a message, as plain values.
pub enum ReactionView<T> {
    Continue,
    Ignore,
    Reply(Seq<char>),
    Cancel { handles: Seq<T>, text: Seq<char> },
    Start(JobView),
}

impl<T> View for Reaction<T> {
    type V = ReactionView<T>;

    open spec fn view(&self) -> ReactionView<T> {
        match *self {
            Reaction::Continue => ReactionView::Continue,
            Reaction::Ignore => ReactionView::Ignore,
            Reaction::Reply(text) => ReactionView::Reply(text@),
            Reaction::Cancel { handles, text } => ReactionView::Cancel {
                handles: handles@,
                text: text@,
            },
            Reaction::Start(job) => ReactionView::Start(job@),
        }
    }
}

/// Whether a chat may use the bot: it is an administrator's, or everyone is on
/// the list, which its smallest number stands for, or the chat is.
pub open spec fn allowed(admins: Set<i64>, whitelist: Set<i64>, chat_id: i64) -> bool {
    admins.contains(chat_id) || whitelist.contains(i64::MIN) || whitelist.contains(chat_id)
}

/// The list that a configuration amounts to: the given chats where it is in
/// force, else everyone.
pub open spec fn whitelist_view(config: Option<WhitelistConfig>) -> Set<i64> {
    match config {
        Some(c) => if c.enabled {
            c.ids@.to_set()
        } else {
            set![i64::MIN]
        },
        None => set![i64::MIN],
    }
}

/// How a chat that may not use the bot is answered.
pub open spec fn unauthorized_view<T>(chat: Chat) -> ReactionView<T> {
    if chat.private {
        ReactionView::Reply(escaped("User not authorized!"@))
    } else {
        ReactionView::Ignore
    }
}

/// How a cancellation of `n` synchronizations is answered.
pub open spec fn cancel_text(n: nat) -> Seq<char> {
    if n > 0 {
        "Cancelled "@ + decimal(n) + " sync operations."@
    } else {
        "No active sync operations."@
    }
}

/// The synchronization that a command asks for.
pub open spec fn requested_job(input: Seq<char>) -> JobView {
    let raw = first_word(words(input));
    let url = parsed_url(raw);
    job_view(gallery_address(raw, url), range_view(words(input), page_suffix(url)))
}

/// How a command is answered.
pub open spec fn command_view<T>(
    is_allowed: bool,
    active: Map<i64, Entries<T>>,
    chat: Chat,
    command: Command,
    help: Seq<char>,
    version: Seq<char>,
) -> ReactionView<T> {
    match command {
        Command::Help => ReactionView::Reply(escaped(help)),
        Command::Version => ReactionView::Reply(escaped(version)),
        Command::Id => ReactionView::Reply(
            "Current chat id is "@ + as_code(signed_decimal(chat.id as int)),
        ),
        Command::Cancel => {
            let handles = handles_of(entries_of(active, chat.id));
            ReactionView::Cancel { handles, text: escaped(cancel_text(handles.len())) }
        },
        Command::Sync(input) => if !is_allowed {
            unauthorized_view(chat)
        } else if input@.len() == 0 {
            ReactionView::Reply(escaped("Usage: /sync url [start] [end]"@))
        } else {
            ReactionView::Start(requested_job(input@))
        },
    }
}

/// How a message is answered in which an address was found, or none.
pub open spec fn found_view<T>(url: Option<Seq<char>>) -> ReactionView<T> {
    match url {
        Some(u) => ReactionView::Start(job_view(u, (None, None))),
        None => ReactionView::Continue,
    }
}

/// How a text message is answered, by the addresses found in it.
pub open spec fn text_view<T>(
    is_allowed: bool,
    chat: Chat,
    found: Seq<Option<String>>,
) -> ReactionView<T> {
    if !is_allowed {
        unauthorized_view(chat)
    } else {
        found_view(first_found(found))
    }
}

/// How a message with a caption is answered, by the addresses found in it and
/// how far it could be looked through.
pub open spec fn caption_view<T>(
    is_allowed: bool,
    chat: Chat,
    end: ScanEnd,
    found: Seq<Option<String>>,
) -> ReactionView<T> {
    if !is_allowed {
        unauthorized_view(chat)
    } else if first_found(found) is None && end == ScanEnd::Undecodable {
        ReactionView::Ignore
    } else {
        found_view(first_found(found))
    }
}

/// What a search result leads to.
pub enum Parsed {
    /// A file of a gallery, by its hash.
    EHentai(String),
    /// A gallery, by its number.
    NHentai(String),
    /// Something else.
    Other,
}

/// A search result.
pub struct SearchHit {
    /// How similar it is, in percent.
    pub similarity: u8,
    pub parsed: Parsed,
}

/// How similar a search result must be.
pub open spec fn threshold_view(chat: Chat) -> u8 {
    if chat.private {
        MIN_SIMILARITY_PRIVATE
    } else {
        MIN_SIMILARITY
    }
}

/// Whether a search result leads to a gallery and is similar enough.
pub open spec fn is_hit(hit: SearchHit, threshold: u8) -> bool {
    hit.similarity >= threshold && !(hit.parsed is Other)
}

/// The first search result that leads to a gallery and is similar enough.
pub open spec fn first_hit(results: Seq<SearchHit>, threshold: u8) -> Option<SearchHit>
    decreases results.len(),
{
    if results.len() == 0 {
        None
    } else if is_hit(results[0], threshold) {
        Some(results[0])
    } else {
        first_hit(results.skip(1), threshold)
    }
}

/// What the bot needs to react to a photo.
pub enum PhotoStep<T> {
    /// The results of a search for the photo.
    Search,
    /// The gallery that holds the file with this hash.
    Convert(String),
    /// Nothing: this is the reaction.
    React(Reaction<T>),
}

/// What the bot needs to react to a photo, as plain values.
pub enum PhotoStepView<T> {
    Search,
    Convert(Seq<char>),
    React(ReactionView<T>),
}

impl<T> View for PhotoStep<T> {
    type V = PhotoStepView<T>;

    open spec fn view(&self) -> PhotoStepView<T> {
        match *self {
            PhotoStep::Search => PhotoStepView::Search,
            PhotoStep::Convert(hash) => PhotoStepView::Convert(hash@),
            PhotoStep::React(reaction) => PhotoStepView::React(reaction@),
        }
    }
}

/// What is needed to react to a message that has a photo, or none.
pub open spec fn photo_view<T>(is_allowed: bool, chat: Chat, has_photo: bool) -> PhotoStepView<T> {
    if !is_allowed {
        PhotoStepView::React(unauthorized_view(chat))
    } else if has_photo {
        PhotoStepView::Search
    } else {
        PhotoStepView::React(ReactionView::Continue)
    }
}

/// What is needed to react to a photo once the search results are there.
pub open spec fn results_view<T>(chat: Chat, results: Seq<SearchHit>) -> PhotoStepView<T> {
    match first_hit(results, threshold_view(chat)) {
        None => PhotoStepView::React(found_view(None)),
        Some(hit) => match hit.parsed {
            Parsed::EHentai(hash) => PhotoStepView::Convert(hash@),
            Parsed::NHentai(id) => PhotoStepView::React(
                found_view(Some("https://nhentai.net/g/"@ + id@ + "/"@)),
            ),
            Parsed::Other => PhotoStepView::React(ReactionView::Continue),
        },
    }
}

/// A cache entry to delete, and the reply that it is deleted, in markup.
pub struct Deletion {
    pub key: String,
    pub text: String,
}

/// The bot's rules and what it has in progress.
pub struct Handler<T> {
    pub synchronizer: Synchronizer,
    pub admins: HashSet<i64>,
    pub whitelist: HashSet<i64>,
    pub active_syncs: ActiveSyncs<T>,
}

fn list_of(ids: &Vec<i64>) -> (r: HashSet<i64>)
    ensures
        r@ == ids@.to_set(),
{
    let mut r: HashSet<i64> = HashSet::new();
    let mut i: usize = 0;
    assert(ids@.take(0).to_set() =~= Set::<i64>::empty());
    while i < ids.len()
        invariant
            i <= ids@.len(),
            r@ == ids@.take(i as int).to_set(),
        decreases ids@.len() - i,
    {
        let ghost before = ids@.take(i as int);
        let ghost after = ids@.take(i + 1);
        r.insert(ids[i]);
        assert(after =~= before.push(ids@[i as int]));
        assert forall|id: i64| after.to_set().contains(id) == before.to_set().insert(
            ids@[i as int],
        ).contains(id) by {
            if before.contains(id) {
                let k = choose|k: int| 0 <= k < before.len() && before[k] == id;
                assert(after[k] == id);
            }
            if id == ids@[i as int] {
                assert(after[i as int] == id);
            }
        }
        assert(r@ =~= after.to_set());
        i += 1;
    }
    assert(ids@.take(i as int) =~= ids@);
    r
}

fn everyone() -> (r: HashSet<i64>)
    ensures
        r@ == set![i64::MIN],
{
    let mut r: HashSet<i64> = HashSet::new();
    r.insert(i64::MIN);
    assert(r@ =~= set![i64::MIN]);
    r
}

fn unauthorized<T>(chat: Chat) -> (r: Reaction<T>)
    ensures
        r@ == unauthorized_view::<T>(chat),
{
    if chat.private {
        Reaction::Reply(escape("User not authorized!"))
    } else {
        Reaction::Ignore
    }
}

fn react_to_found<T>(url: Option<String>) -> (r: Reaction<T>)
    ensures
        r@ == found_view::<T>(opt_text(url)),
{
    match url {
        Some(url) => Reaction::Start(Job::new(url, None, None)),
        None => Reaction::Continue,
    }
}

impl<T> Handler<T> {
    /// The synchronizations in progress.
    pub open spec fn active(self) -> Map<i64, Entries<T>> {
        self.active_syncs@
    }

    /// The synchronizations in progress are listed as they should be.
    pub open spec fn wf(self) -> bool {
        self.active_syncs.wf()
    }

    /// Whether a chat may use the bot.
    pub open spec fn allows(self, chat_id: i64) -> bool {
        allowed(self.admins@, self.whitelist@, chat_id)
    }

    /// Whether both follow the same rules.
    pub open spec fn same_rules(self, other: Self) -> bool {
        &&& self.synchronizer == other.synchronizer
        &&& self.admins == other.admins
        &&& self.whitelist == other.whitelist
    }

    /// A bot with nothing in progress.
    pub fn new(
        synchronizer: Synchronizer,
        admins: HashSet<i64>,
        whitelist: Option<WhitelistConfig>,
    ) -> (r: Self)
        ensures
            r.wf(),
            r.active() == Map::<i64, Entries<T>>::empty(),
            r.synchronizer == synchronizer,
            r.admins == admins,
            r.whitelist@ == whitelist_view(whitelist),
    {
        let whitelist = match whitelist {
            Some(config) => if config.enabled {
                list_of(&config.ids)
            } else {
                everyone()
            },
            None => everyone(),
        };
        Handler { synchronizer, admins, whitelist, active_syncs: ActiveSyncs::new() }
    }

    /// Whether a chat may use the bot.
    pub fn is_allowed(&self, chat_id: i64) -> (r: bool)
        ensures
            r == self.allows(chat_id),
    {
        if self.admins.contains(&chat_id) || self.whitelist.contains(&i64::MIN) {
            return true;
        }
        self.whitelist.contains(&chat_id)
    }

    /// Takes note that a chat's synchronization of an address began.
    pub fn register_sync(&mut self, user_id: i64, url: &str, handle: T)
        requires
            old(self).wf(),
        ensures
            final(self).wf(),
            final(self).same_rules(*old(self)),
            final(self).active() == registered(
                old(self).active(),
                user_id,
                url@,
                handle,
            ),
    {
        self.active_syncs.register_sync(user_id, url, handle);
    }

    /// Takes note that a chat's synchronizations of an address ended.
    pub fn unregister_sync(&mut self, user_id: i64, url: &str)
        requires
            old(self).wf(),
        ensures
            final(self).wf(),
            final(self).same_rules(*old(self)),
            final(self).active() == unregistered(
                old(self).active(),
                user_id,
                url@,
            ),
    {
        self.active_syncs.unregister_sync(user_id, url);
    }

    /// Reacts to a command.
    pub fn respond_cmd(&mut self, chat: Chat, command: Command, help: &str, version: &str) -> (r:
        Reaction<T>)
        requires
            old(self).wf(),
        ensures
            final(self).wf(),
            final(self).same_rules(*old(self)),
            final(self).active() == (if command is Cancel {
                old(self).active().remove(chat.id)
            } else {
                old(self).active()
            }),
            r@ == command_view(
                old(self).allows(chat.id),
                old(self).active(),
                chat,
                command,
                help@,
                version@,
            ),
    {
        match command {
            Command::Help => Reaction::Reply(escape(help)),
            Command::Version => Reaction::Reply(escape(version)),
            Command::Id => {
                let id = signed_decimal_text(chat.id);
                Reaction::Reply(
                    "Current chat id is ".to_string().concat(code_inline(id.as_str()).as_str()),
                )
            },
            Command::Cancel => {
                let handles = self.active_syncs.cancel_all_syncs(chat.id);
                let count: usize = handles.len();
                let text = if count > 0 {
                    "Cancelled ".to_string().concat(decimal_text(count as u128).as_str()).concat(
                        " sync operations.",
                    )
                } else {
                    "No active sync operations.".to_string()
                };
                Reaction::Cancel { handles, text: escape(text.as_str()) }
            },
            Command::Sync(input) => {
                if !self.is_allowed(chat.id) {
                    return unauthorized(chat);
                }
                if input.as_str().unicode_len() == 0 {
                    return Reaction::Reply(escape("Usage: /sync url [start] [end]"));
                }
                let request = parse_request(input.as_str());
                Reaction::Start(Job::new(request.url, request.start, request.end))
            },
        }
    }

    /// Reacts to an administrator's command.
    pub fn respond_admin_cmd(&self, command: AdminCommand) -> (r: Deletion)
        ensures
            match command {
                AdminCommand::Delete(key) => {
                    &&& r.key@ == key@
                    &&& r.text@ == escaped("Key "@ + key@ + " deleted."@)
                },
            },
    {
        match command {
            AdminCommand::Delete(key) => {
                let text = "Key ".to_string().concat(key.as_str()).concat(" deleted.");
                Deletion { text: escape(text.as_str()), key }
            },
        }
    }

    /// Reacts to a text message, by the addresses found in it.
    pub fn respond_text(&self, chat: Chat, found: &Vec<Option<String>>) -> (r: Reaction<T>)
        ensures
            r@ == text_view::<T>(self.allows(chat.id), chat, found@),
    {
        if !self.is_allowed(chat.id) {
            return unauthorized(chat);
        }
        react_to_found(first_match(found))
    }

    /// Reacts to a message with a caption, by the addresses found in it and how
    /// far it could be looked through.
    pub fn respond_caption(&self, chat: Chat, end: ScanEnd, found: &Vec<Option<String>>) -> (r:
        Reaction<T>)
        requires
            self.allows(chat.id) && first_found(found@) is None ==> end
                != ScanEnd::MissingCaption,
        ensures
            r@ == caption_view::<T>(self.allows(chat.id), chat, end, found@),
    {
        if !self.is_allowed(chat.id) {
            return unauthorized(chat);
        }
        let url = first_match(found);
        if url.is_none() && end == ScanEnd::Undecodable {
            return Reaction::Ignore;
        }
        react_to_found(url)
    }

    /// Begins to react to a message that has a photo, or none.
    pub fn respond_photo(&self, chat: Chat, has_photo: bool) -> (r: PhotoStep<T>)
        ensures
            r@ == photo_view::<T>(self.allows(chat.id), chat, has_photo),
    {
        if !self.is_allowed(chat.id) {
            return PhotoStep::React(unauthorized(chat));
        }
        if has_photo {
            PhotoStep::Search
        } else {
            PhotoStep::React(Reaction::Continue)
        }
    }

    /// Goes on with the reaction to a photo, by the results of the search.
    pub fn photo_searched(&self, chat: Chat, results: &Vec<SearchHit>) -> (r: PhotoStep<T>)
        ensures
            r@ == results_view::<T>(chat, results@),
    {
        let threshold: u8 = if chat.private {
            MIN_SIMILARITY_PRIVATE
        } else {
            MIN_SIMILARITY
        };
        let mut i: usize = 0;
        assert(results@.skip(0) =~= results@);
        while i < results.len()
            invariant
                i <= results@.len(),
                threshold == threshold_view(chat),
                first_hit(results@.skip(i as int), threshold) == first_hit(results@, threshold),
            decreases results@.len() - i,
        {
            let hit = &results[i];
            assert(results@.skip(i as int)[0] == *hit);
            assert(results@.skip(i as int).skip(1) =~= results@.skip(i + 1));
            if hit.similarity >= threshold {
                match &hit.parsed {
                    Parsed::EHentai(hash) => {
                        return PhotoStep::Convert(hash.clone());
                    },
                    Parsed::NHentai(id) => {
                        let url = "https://nhentai.net/g/".to_string().concat(id.as_str()).concat(
                            "/",
                        );
                        return PhotoStep::React(react_to_found(Some(url)));
                    },
                    Parsed::Other => {},
                }
            }
            i += 1;
        }
        PhotoStep::React(Reaction::Continue)
    }

    /// Ends the reaction to a photo, by the gallery that holds the file.
    pub fn photo_converted(&self, url: String) -> (r: Reaction<T>)
        ensures
            r@ == found_view::<T>(Some(url@)),
    {
        react_to_found(Some(url))
    }

    /// Reacts to a message that nothing else reacted to.
    pub fn respond_default(&self, chat: Chat) -> (r: Reaction<T>)
        ensures
            r@ == (if chat.private {
                ReactionView::<T>::Reply(escaped("Unrecognized message. Maybe /help ?"@))
            } else {
                ReactionView::<T>::Ignore
            }),
    {
        if chat.private {
            Reaction::Reply(escape("Unrecognized message. Maybe /help ?"))
        } else {
            Reaction::Ignore
        }
    }
}

/// How a synchronization to pages ended.
pub enum SyncOutcome {
    /// With the address of the first page.
    Finished(String),
    /// With an error, by what it is reported as.
    Failed(String),
    /// By being cancelled.
    Cancelled,
}

/// What the prompt of a synchronization becomes, in markup.
pub open spec fn outcome_text(outcome: SyncOutcome) -> Seq<char> {
    match outcome {
        SyncOutcome::Finished(url) => "Sync to telegraph finished: "@ + linked(
            url@,
            escaped(url@),
        ),
        SyncOutcome::Failed(error) => "Sync to telegraph failed: "@ + escaped(error@),
        SyncOutcome::Cancelled => "Sync operation was cancelled."@,
    }
}

/// Writes what the prompt of a synchronization becomes.
pub fn sync_range_response(outcome: &SyncOutcome) -> (r: String)
    ensures
        r@ == outcome_text(*outcome),
{
    match outcome {
        SyncOutcome::Finished(url) => {
            let text = link(url.as_str(), escape(url.as_str()).as_str());
            "Sync to telegraph finished: ".to_string().concat(text.as_str())
        },
        SyncOutcome::Failed(error) => "Sync to telegraph failed: ".to_string().concat(
            escape(error.as_str()).as_str(),
        ),
        SyncOutcome::Cancelled => "Sync operation was cancelled.".to_string(),
    }
}

/// How the fetch of a few images ended.
pub enum FetchOutcome {
    /// With the images of the gallery that could be fetched.
    Fetched { meta: AlbumMeta, images: Vec<Image> },
    /// With an error, by what it is reported as.
    Failed(String),
    /// By being cancelled.
    Cancelled,
}

/// An image to send, with a caption in markup.
pub struct Photo {
    pub data: ImageData,
    pub caption: Option<String>,
}

/// An image to send, as plain values.
pub struct PhotoView {
    pub data: ImageData,
    pub caption: Option<Seq<char>>,
}

impl View for Photo {
    type V = PhotoView;

    open spec fn view(&self) -> PhotoView {
        PhotoView { data: self.data, caption: opt_text(self.caption) }
    }
}

/// What images to send are as plain values.
pub open spec fn photos_view(photos: Seq<Photo>) -> Seq<PhotoView> {
    photos.map_values(|p: Photo| p@)
}

/// The images to send, the first of them with the caption.
pub open spec fn captioned(images: Seq<Image>, caption: Seq<char>) -> Seq<PhotoView> {
    Seq::new(
        images.len(),
        |i: int|
            PhotoView {
                data: images[i].1,
                caption: if i == 0 {
                    Some(caption)
                } else {
                    None
                },
            },
    )
}

/// The caption of a range: a link to the gallery that names it and the range.
pub open spec fn range_caption(meta: AlbumMeta, start: nat, end: nat) -> Seq<char> {
    linked(
        meta.link@,
        escaped(meta.name@ + " (Pages "@ + decimal(start) + "-"@ + decimal(end) + ")"@),
    )
}

/// What is done about fetched images.
pub enum MediaAction {
    /// They are sent.
    Send(Vec<Photo>),
    /// The prompt becomes this text, in markup.
    Edit(String),
}

/// What is done about fetched images, as plain values.
pub enum MediaActionView {
    Send(Seq<PhotoView>),
    Edit(Seq<char>),
}

impl View for MediaAction {
    type V = MediaActionView;

    open spec fn view(&self) -> MediaActionView {
        match *self {
            MediaAction::Send(photos) => MediaActionView::Send(photos_view(photos@)),
            MediaAction::Edit(text) => MediaActionView::Edit(text@),
        }
    }
}

/// What is done about the images of a range.
pub open spec fn media_action_view(outcome: FetchOutcome, start: nat, end: nat) -> MediaActionView {
    match outcome {
        FetchOutcome::Fetched { meta, images } => if images@.len() > 0 {
            MediaActionView::Send(captioned(images@, range_caption(meta, start, end)))
        } else {
            MediaActionView::Edit(escaped("Failed: No images found in this range."@))
        },
        FetchOutcome::Failed(error) => MediaActionView::Edit(
            escaped("Fetch failed: "@ + error@),
        ),
        FetchOutcome::Cancelled => MediaActionView::Edit(escaped("Operation cancelled by user."@)),
    }
}

fn caption_photos(images: Vec<Image>, caption: &str) -> (r: Vec<Photo>)
    ensures
        photos_view(r@) == captioned(images@, caption@),
{
    let mut r: Vec<Photo> = Vec::new();
    let ghost all = images@;
    for image in it: images.into_iter()
        invariant
            it.seq() == all,
            photos_view(r@) == captioned(all, caption@).take(it.index() as int),
    {
        let ghost k = it.index() as int;
        let ghost before = photos_view(r@);
        let text = if r.len() == 0 {
            Some(caption.to_string())
        } else {
            None
        };
        let ghost photo = Photo { data: image.1, caption: text };
        assert(before.len() == k);
        assert(photo@ == captioned(all, caption@)[k]);
        r.push(Photo { data: image.1, caption: text });
        assert(photos_view(r@) =~= before.push(photo@));
        assert(photos_view(r@) =~= captioned(all, caption@).take(k + 1));
    }
    assert(photos_view(r@) =~= captioned(all, caption@));
    r
}

/// Decides what is done about the images of a range.
pub fn send_media_group_response(outcome: FetchOutcome, start: usize, end: usize) -> (r:
    MediaAction)
    ensures
        r@ == media_action_view(outcome, start as nat, end as nat),
{
    match outcome {
        FetchOutcome::Fetched { meta, images } => {
            if images.len() == 0 {
                return MediaAction::Edit(escape("Failed: No images found in this range."));
            }
            let title = meta.name.clone().concat(" (Pages ").concat(
                decimal_text(start as u128).as_str(),
            ).concat("-").concat(decimal_text(end as u128).as_str()).concat(")");
            let caption = link(meta.link.as_str(), escape(title.as_str()).as_str());
            MediaAction::Send(caption_photos(images, caption.as_str()))
        },
        FetchOutcome::Failed(error) => MediaAction::Edit(
            escape("Fetch failed: ".to_string().concat(error.as_str()).as_str()),
        ),
        FetchOutcome::Cancelled => MediaAction::Edit(escape("Operation cancelled by user.")),
    }
}

/// What becomes of a prompt.
pub enum PromptAction {
    /// It is deleted.
    Delete,
    /// It becomes this text, in markup.
    Edit(String),
}

/// Decides what becomes of the prompt once the images were sent, or failed to be.
pub fn media_group_sent(success: bool) -> (r: PromptAction)
    ensures
        success ==> r is Delete,
        !success ==> r is Edit && r->Edit_0@ == escaped("Failed to send media group."@),
{
    if success {
        PromptAction::Delete
    } else {
        PromptAction::Edit(escape("Failed to send media group."))
    }
}

/// Without a list in force everyone may use the bot.
pub proof fn law_no_list_allows_all(
    admins: Set<i64>,
    config: Option<WhitelistConfig>,
    chat_id: i64,
)
    requires
        config is None || !config->0.enabled,
    ensures
        allowed(admins, whitelist_view(config), chat_id),
{
}

/// With a list in force exactly the administrators and the listed chats may use
/// the bot.
pub proof fn law_list_allows_listed(admins: Set<i64>, config: WhitelistConfig, chat_id: i64)
    requires
        config.enabled,
        !config.ids@.contains(i64::MIN),
    ensures
        allowed(admins, whitelist_view(Some(config)), chat_id) == (admins.contains(chat_id)
            || config.ids@.contains(chat_id)),
{
}

/// Nothing that comes from a chat that may not use the bot starts a
/// synchronization or a search, and the chat is told so exactly where it is
/// private.
pub proof fn law_unauthorized_refused<T>(
    active: Map<i64, Entries<T>>,
    chat: Chat,
    input: String,
    help: Seq<char>,
    version: Seq<char>,
    end: ScanEnd,
    found: Seq<Option<String>>,
    has_photo: bool,
)
    ensures
        ({
            let refusal = if chat.private {
                ReactionView::<T>::Reply(escaped("User not authorized!"@))
            } else {
                ReactionView::<T>::Ignore
            };
            &&& command_view(false, active, chat, Command::Sync(input), help, version) == refusal
            &&& text_view::<T>(false, chat, found) == refusal
            &&& caption_view::<T>(false, chat, end, found) == refusal
            &&& photo_view::<T>(false, chat, has_photo) == PhotoStepView::React(refusal)
        }),
{
}

/// Searches in private chats find whatever searches in groups find: what is
/// similar enough for a group is similar enough for a private chat.
pub proof fn law_private_search_wider(results: Seq<SearchHit>, id: i64)
    ensures
        ({
            let group = first_hit(results, threshold_view(Chat { id, private: false }));
            let private = first_hit(results, threshold_view(Chat { id, private: true }));
            group is Some ==> private is Some
        }),
    decreases results.len(),
{
    if results.len() > 0 {
        law_private_search_wider(results.skip(1), id);
    }
}

/// Nothing but a result with a similarity of at least 50 percent in a private
/// chat, and at least 70 elsewhere, is acted on, whichever site it leads to: where
/// no such result leads to a gallery, the bot does nothing.
pub proof fn law_search_ignores_dissimilar<T>(chat: Chat, results: Seq<SearchHit>)
    requires
        forall|i: int|
            0 <= i < results.len() ==> (#[trigger] results[i]).parsed is Other
                || results[i].similarity < (if chat.private {
                50int
            } else {
                70int
            }),
    ensures
        results_view::<T>(chat, results) == PhotoStepView::<T>::React(ReactionView::Continue),
{
    lemma_no_hit(results, threshold_view(chat));
}

proof fn lemma_no_hit(results: Seq<SearchHit>, threshold: u8)
    requires
        forall|i: int|
            0 <= i < results.len() ==> (#[trigger] results[i]).parsed is Other
                || results[i].similarity < threshold,
    ensures
        first_hit(results, threshold) is None,
    decreases results.len(),
{
    if results.len() > 0 {
        assert(!is_hit(results[0], threshold));
        assert forall|i: int| 0 <= i < results.skip(1).len() implies (
        #[trigger] results.skip(1)[i]).parsed is Other || results.skip(1)[i].similarity
            < threshold by {
            assert(results.skip(1)[i] == results[i + 1]);
        }
        lemma_no_hit(results.skip(1), threshold);
    }
}

/// The first result that leads to a gallery and has a similarity of at least 50
/// percent in a private chat, and at least 70 elsewhere, is acted on: a file by
/// its hash, a gallery by its address.
pub proof fn law_search_takes_first<T>(chat: Chat, results: Seq<SearchHit>, k: int)
    requires
        0 <= k < results.len(),
        !(results[k].parsed is Other),
        results[k].similarity >= (if chat.private {
            50int
        } else {
            70int
        }),
        forall|i: int|
            0 <= i < k ==> (#[trigger] results[i]).parsed is Other || results[i].similarity < (
            if chat.private {
                50int
            } else {
                70int
            }),
    ensures
        match results[k].parsed {
            Parsed::EHentai(hash) => results_view::<T>(chat, results) == PhotoStepView::<
                T,
            >::Convert(hash@),
            Parsed::NHentai(id) => results_view::<T>(chat, results) == PhotoStepView::<T>::React(
                ReactionView::Start(
                    JobView {
                        prompt: escaped(
                            "Syncing url "@ + ("https://nhentai.net/g/"@ + id@ + "/"@),
                        ),
                        url: "https://nhentai.net/g/"@ + id@ + "/"@,
                        delivery: Delivery::Pages { start: None, end: None },
                    },
                ),
            ),
            Parsed::Other => false,
        },
{
    lemma_first_hit(results, threshold_view(chat), k);
}

proof fn lemma_first_hit(results: Seq<SearchHit>, threshold: u8, k: int)
    requires
        0 <= k < results.len(),
        is_hit(results[k], threshold),
        forall|i: int|
            0 <= i < k ==> (#[trigger] results[i]).parsed is Other || results[i].similarity
                < threshold,
    ensures
        first_hit(results, threshold) == Some(results[k]),
    decreases k,
{
    if k > 0 {
        assert(!is_hit(results[0], threshold));
        let rest = results.skip(1);
        assert(rest[k - 1] == results[k]);
        assert forall|i: int| 0 <= i < k - 1 implies (#[trigger] rest[i]).parsed is Other
            || rest[i].similarity < threshold by {
            assert(rest[i] == results[i + 1]);
        }
        lemma_first_hit(rest, threshold, k - 1);
    }
}

/// In a chat that may use the bot a photo is searched for; a message without one
/// is left to others.
pub proof fn law_photo_searched_for<T>(chat: Chat)
    ensures
        photo_view::<T>(true, chat, true) == PhotoStepView::<T>::Search,
        photo_view::<T>(true, chat, false) == PhotoStepView::<T>::React(ReactionView::Continue),
{
}

/// Every fetched image of a range is sent, in its place, and only the first has a
/// caption, which links to the gallery and names it and the range.
pub proof fn law_all_images_sent(outcome: FetchOutcome, start: nat, end: nat, i: int)
    ensures
        outcome matches FetchOutcome::Fetched { meta, images } ==> {
            let action = media_action_view(outcome, start, end);
            &&& action is Send <==> images@.len() > 0
            &&& action matches MediaActionView::Send(photos) ==> {
                &&& photos.len() == images@.len()
                &&& 0 <= i < images@.len() ==> photos[i].data == images@[i].1
                &&& 0 < i < images@.len() ==> photos[i].caption is None
                &&& photos[0].caption == Some(
                    linked(
                        meta.link@,
                        escaped(
                            meta.name@ + " (Pages "@ + decimal(start) + "-"@ + decimal(end)
                                + ")"@,
                        ),
                    ),
                )
            }
            &&& images@.len() == 0 ==> action == MediaActionView::Edit(
                escaped("Failed: No images found in this range."@),
            )
        },
{
}

/// Without images the prompt says why.
pub proof fn law_no_images_reported(outcome: FetchOutcome, start: nat, end: nat)
    ensures
        outcome matches FetchOutcome::Failed(error) ==> media_action_view(outcome, start, end)
            == MediaActionView::Edit(escaped("Fetch failed: "@ + error@)),
        outcome is Cancelled ==> media_action_view(outcome, start, end) == MediaActionView::Edit(
            escaped("Operation cancelled by user."@),
        ),
{
}

/// The prompt of a finished synchronization links to the page, that of a failed
/// one says why, that of a cancelled one that it was cancelled.
pub proof fn law_outcome_reported(outcome: SyncOutcome)
    ensures
        outcome matches SyncOutcome::Finished(url) ==> outcome_text(outcome)
            == "Sync to telegraph finished: "@ + linked(url@, escaped(url@)),
        outcome matches SyncOutcome::Failed(error) ==> outcome_text(outcome)
            == "Sync to telegraph failed: "@ + escaped(error@),
        outcome is Cancelled ==> outcome_text(outcome) == "Sync operation was cancelled."@,
{
}

/// In a chat that may use the bot, the first address found in a text message is
/// synchronized as a whole; without one the message is left to others.
pub proof fn law_text_answered<T>(chat: Chat, found: Seq<Option<String>>, k: int)
    requires
        0 <= k <= found.len(),
        forall|i: int| 0 <= i < k ==> (#[trigger] found[i]) is None,
    ensures
        k < found.len() ==> (found[k] matches Some(url) ==> text_view::<T>(true, chat, found)
            == ReactionView::<T>::Start(
            JobView {
                prompt: escaped("Syncing url "@ + url@),
                url: url@,
                delivery: Delivery::Pages { start: None, end: None },
            },
        )),
        k == found.len() ==> text_view::<T>(true, chat, found) == ReactionView::<T>::Continue,
{
    law_first_found(found, k);
}

/// In a chat that may use the bot, the first address found in a caption is
/// synchronized as a whole, however the search for more of them ended. Without
/// one the message is left to others, unless it could not be looked through.
pub proof fn law_caption_answered<T>(chat: Chat, end: ScanEnd, found: Seq<Option<String>>, k: int)
    requires
        0 <= k <= found.len(),
        forall|i: int| 0 <= i < k ==> (#[trigger] found[i]) is None,
    ensures
        k < found.len() ==> (found[k] matches Some(url) ==> caption_view::<T>(
            true,
            chat,
            end,
            found,
        ) == ReactionView::<T>::Start(
            JobView {
                prompt: escaped("Syncing url "@ + url@),
                url: url@,
                delivery: Delivery::Pages { start: None, end: None },
            },
        )),
        k == found.len() && end is Complete ==> caption_view::<T>(true, chat, end, found)
            == ReactionView::<T>::Continue,
        k == found.len() && end is Undecodable ==> caption_view::<T>(true, chat, end, found)
            == ReactionView::<T>::Ignore,
{
    law_first_found(found, k);
}

/// The gallery that holds a searched file is synchronized as a whole.
pub proof fn law_converted_answered<T>(url: Seq<char>)
    ensures
        found_view::<T>(Some(url)) == ReactionView::<T>::Start(
            JobView {
                prompt: escaped("Syncing url "@ + url),
                url,
                delivery: Delivery::Pages { start: None, end: None },
            },
        ),
        found_view::<T>(None) == ReactionView::<T>::Continue,
{
}

/// A command with an address and two numbers starts the synchronization of the
/// range between them: as images where they are at most five apart, else as
/// pages. An address with a page number at its end loses it; any other stays as
/// it is.
pub proof fn law_range_command_answered<T>(
    active: Map<i64, Entries<T>>,
    chat: Chat,
    input: String,
    url: Seq<char>,
    first: usize,
    second: usize,
    help: Seq<char>,
    version: Seq<char>,
)
    requires
        is_word(url),
        input@ == url + seq![' '] + (decimal(first as nat) + seq![' '] + decimal(second as nat)),
    ensures
        ({
            let lo = if first <= second {
                first
            } else {
                second
            };
            let hi = if first <= second {
                second
            } else {
                first
            };
            let r = command_view(true, active, chat, Command::Sync(input), help, version);
            &&& r matches ReactionView::Start(job) && {
                &&& job.prompt == escaped("Syncing url "@ + job.url)
                &&& page_suffix(parsed_url(url)) is None ==> job.url == url
                &&& page_suffix(parsed_url(url)) is Some ==> job.url == without_last_segment(
                    parsed_url(url)->0,
                )
                &&& hi - lo <= 5 ==> job.delivery == (Delivery::Images { start: lo, end: hi })
                &&& hi - lo > 5 ==> job.delivery == (Delivery::Pages {
                    start: Some(lo),
                    end: Some(hi),
                })
            }
        }),
{
    law_range_command(url, first, second, page_suffix(parsed_url(url)));
}

/// A command with an address and a number, or with an address that ends with one,
/// sends the image of that page; one with neither synchronizes the whole gallery.
pub proof fn law_page_command_answered<T>(
    active: Map<i64, Entries<T>>,
    chat: Chat,
    input: String,
    url: Seq<char>,
    page: Option<usize>,
    help: Seq<char>,
    version: Seq<char>,
)
    requires
        is_word(url),
        input@ == (match page {
            Some(p) => url + seq![' '] + decimal(p as nat),
            None => url,
        }),
    ensures
        ({
            let wanted = if page is Some {
                page
            } else {
                page_suffix(parsed_url(url))
            };
            let r = command_view(true, active, chat, Command::Sync(input), help, version);
            &&& r matches ReactionView::Start(job) && {
                &&& job.prompt == escaped("Syncing url "@ + job.url)
                &&& page_suffix(parsed_url(url)) is None ==> job.url == url
                &&& page_suffix(parsed_url(url)) is Some ==> job.url == without_last_segment(
                    parsed_url(url)->0,
                )
                &&& wanted matches Some(p) ==> job.delivery == (Delivery::Images {
                    start: p,
                    end: p,
                })
                &&& wanted is None ==> job.delivery == (Delivery::Pages { start: None, end: None })
            }
        }),
{
    let suffix = page_suffix(parsed_url(url));
    match page {
        Some(p) => {
            law_page_command(url, p, suffix);
        },
        None => {
            law_plain_command(url, suffix);
        },
    }
}

/// Commands that need no permission are answered in every chat, and a
/// synchronization command without input is explained.
pub proof fn law_plain_commands_answered<T>(
    is_allowed: bool,
    active: Map<i64, Entries<T>>,
    chat: Chat,
    input: String,
    help: Seq<char>,
    version: Seq<char>,
)
    ensures
        command_view(is_allowed, active, chat, Command::Help, help, version) == ReactionView::<
            T,
        >::Reply(escaped(help)),
        command_view(is_allowed, active, chat, Command::Version, help, version) == ReactionView::<
            T,
        >::Reply(escaped(version)),
        command_view(is_allowed, active, chat, Command::Id, help, version) == ReactionView::<
            T,
        >::Reply("Current chat id is "@ + as_code(signed_decimal(chat.id as int))),
        input@.len() == 0 ==> command_view(
            true,
            active,
            chat,
            Command::Sync(input),
            help,
            version,
        ) == ReactionView::<T>::Reply(escaped("Usage: /sync url [start] [end]"@)),
{
}

/// A cancellation hands out what cancels each synchronization of the chat, in the
/// order in which they began, and says how many there were.
pub proof fn law_cancel_answered<T>(
    is_allowed: bool,
    active: Map<i64, Entries<T>>,
    chat: Chat,
    help: Seq<char>,
    version: Seq<char>,
    i: int,
)
    ensures
        ({
            let r = command_view(is_allowed, active, chat, Command::Cancel, help, version);
            &&& !active.contains_key(chat.id) ==> r == (ReactionView::<T>::Cancel {
                handles: Seq::empty(),
                text: escaped("No active sync operations."@),
            })
            &&& active.contains_key(chat.id) ==> {
                let entries = active[chat.id];
                &&& r is Cancel
                &&& r->handles.len() == entries.len()
                &&& 0 <= i < entries.len() ==> r->handles[i] == entries[i].1
                &&& entries.len() > 0 ==> r->Cancel_text == escaped(
                    "Cancelled "@ + decimal(entries.len()) + " sync operations."@,
                )
            }
        }),
{
    assert(handles_of(Seq::<(Seq<char>, T)>::empty()) =~= Seq::<T>::empty());
}

/// Any synchronization command with input starts the synchronization of what its
/// first word leads to, in the range that its words ask for.
pub proof fn law_sync_command_answered<T>(
    active: Map<i64, Entries<T>>,
    chat: Chat,
    input: String,
    help: Seq<char>,
    version: Seq<char>,
)
    requires
        input@.len() > 0,
    ensures
        ({
            let args = words(input@);
            let first = if args.len() > 0 {
                args[0]
            } else {
                Seq::empty()
            };
            let url = parsed_url(first);
            let range = range_view(args, page_suffix(url));
            let r = command_view(true, active, chat, Command::Sync(input), help, version);
            &&& r matches ReactionView::Start(job) && {
                &&& job.prompt == escaped("Syncing url "@ + job.url)
                &&& page_suffix(url) is None ==> job.url == first
                &&& page_suffix(url) is Some ==> job.url == without_last_segment(url->0)
                &&& range.0 is Some && range.1 is Some && range.1->0 - range.0->0 <= 5
                    ==> job.delivery == (Delivery::Images { start: range.0->0, end: range.1->0 })
                &&& !(range.0 is Some && range.1 is Some && range.1->0 - range.0->0 <= 5)
                    ==> job.delivery == (Delivery::Pages { start: range.0, end: range.1 })
            }
        }),
{
}

/// Administrators may always use the bot, and so may everyone where the list holds
/// the smallest number.
pub proof fn law_always_allowed(admins: Set<i64>, whitelist: Set<i64>, chat_id: i64)
    ensures
        admins.contains(chat_id) ==> allowed(admins, whitelist, chat_id),
        whitelist.contains(i64::MIN) ==> allowed(admins, whitelist, chat_id),
        whitelist.contains(chat_id) ==> allowed(admins, whitelist, chat_id),
        !admins.contains(chat_id) && !whitelist.contains(i64::MIN) && !whitelist.contains(chat_id)
            ==> !allowed(admins, whitelist, chat_id),
{
}

} // verus!
