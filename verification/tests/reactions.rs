use eh2telegraph::active::ActiveSyncs;
use eh2telegraph::album::{AlbumMeta, ImageMeta};
use eh2telegraph::handler::{
    media_group_sent, send_media_group_response, sync_range_response, AdminCommand, Chat, Command,
    FetchOutcome, Handler, Job, MediaAction, Parsed, PhotoStep, PromptAction, Reaction, SearchHit,
    SyncOutcome, WhitelistConfig,
};
use eh2telegraph::message::{
    caption_candidates, first_match, text_candidates, utf16_slice, Entity, EntityKind, ScanEnd,
};
use eh2telegraph::request::Delivery;
use eh2telegraph::sync::Synchronizer;
use std::collections::HashSet;

const PRIVATE: Chat = Chat { id: 5, private: true };
const GROUP: Chat = Chat { id: -100, private: false };

fn open_bot() -> Handler<u32> {
    Handler::new(Synchronizer::new(), HashSet::new(), None)
}

fn closed_bot() -> Handler<u32> {
    let config = WhitelistConfig { enabled: true, ids: vec![7, 8] };
    Handler::new(Synchronizer::new(), HashSet::from([1]), Some(config))
}

fn reply(r: Reaction<u32>) -> String {
    match r {
        Reaction::Reply(text) => text,
        _ => panic!("a reply was expected"),
    }
}

fn job(r: Reaction<u32>) -> Job {
    match r {
        Reaction::Start(job) => job,
        _ => panic!("a synchronization was expected"),
    }
}

fn found(urls: &[Option<&str>]) -> Vec<Option<String>> {
    urls.iter().map(|u| u.map(|s| s.to_string())).collect()
}

fn run(bot: &mut Handler<u32>, chat: Chat, command: Command) -> Reaction<u32> {
    bot.respond_cmd(chat, command, "help.", "v1.0")
}

#[test]
fn slices_agree_with_the_standard_library() {
    let texts = ["", "abc", "a\u{1f600}b", "\u{1f600}\u{1f601}", "\u{ffff}x\u{10000}\u{d7ff}\u{e000}"];
    for raw in texts {
        let n = raw.encode_utf16().count();
        for offset in 0..n + 3 {
            for length in 0..n + 3 {
                let units: Vec<u16> = raw.encode_utf16().skip(offset).take(length).collect();
                let expected = String::from_utf16(&units).ok();
                assert_eq!(utf16_slice(raw, offset, length), expected, "{raw:?} {offset} {length}");
            }
        }
        assert_eq!(utf16_slice(raw, 0, usize::MAX), Some(raw.to_string()));
        assert_eq!(utf16_slice(raw, usize::MAX, usize::MAX), Some(String::new()));
    }
}

fn entity(kind: EntityKind, offset: usize, length: usize) -> Entity {
    Entity { kind, offset, length }
}

fn text_link(url: &str) -> EntityKind {
    EntityKind::TextLink { url: url.to_string() }
}

#[test]
fn places_in_text_messages() {
    let entities = vec![
        entity(EntityKind::Url, 0, 2),
        entity(text_link("x"), 0, 1),
        entity(EntityKind::Other, 0, 1),
        entity(text_link("y"), 1, 1),
    ];
    assert_eq!(text_candidates(&Some("t".to_string()), &entities), ["t", "x", "y"]);
    assert_eq!(text_candidates(&None, &entities), ["x", "y"]);
    assert_eq!(text_candidates(&Some("t".to_string()), &Vec::new()), ["t"]);
    assert!(text_candidates(&None, &Vec::new()).is_empty());
}

#[test]
fn places_in_captions() {
    let caption = Some("\u{1f600} url tail".to_string());
    let entities = vec![
        entity(text_link("x"), 0, 1),
        entity(EntityKind::Url, 3, 3),
        entity(EntityKind::Other, 0, 1),
        entity(text_link("y"), 0, 1),
    ];
    let scan = caption_candidates(&caption, &entities);
    assert_eq!(scan.candidates, ["x", "url", "y"]);
    assert_eq!(scan.end, ScanEnd::Complete);
}

#[test]
fn caption_parts_inside_a_character_stop_the_scan() {
    let caption = Some("\u{1f600} url".to_string());
    let entities = vec![
        entity(text_link("x"), 0, 1),
        entity(EntityKind::Url, 1, 3),
        entity(text_link("y"), 0, 1),
    ];
    let scan = caption_candidates(&caption, &entities);
    assert_eq!(scan.candidates, ["x"]);
    assert_eq!(scan.end, ScanEnd::Undecodable);
}

#[test]
fn marked_address_without_a_caption_stops_the_scan() {
    let entities = vec![entity(text_link("x"), 0, 1), entity(EntityKind::Url, 0, 1)];
    let scan = caption_candidates(&None, &entities);
    assert_eq!(scan.candidates, ["x"]);
    assert_eq!(scan.end, ScanEnd::MissingCaption);
    assert_eq!(caption_candidates(&None, &Vec::new()).end, ScanEnd::Complete);
}

#[test]
fn first_address_counts() {
    assert_eq!(first_match(&found(&[None, Some("a"), Some("b")])), Some("a".to_string()));
    assert_eq!(first_match(&found(&[None, None])), None);
    assert_eq!(first_match(&Vec::new()), None);
}

#[test]
fn syncs_are_listed_while_they_run() {
    let mut syncs: ActiveSyncs<u32> = ActiveSyncs::new();
    syncs.register_sync(1, "a", 10);
    syncs.register_sync(1, "b", 11);
    syncs.register_sync(1, "a", 12);
    syncs.register_sync(2, "a", 20);
    syncs.unregister_sync(1, "a");
    syncs.unregister_sync(3, "a");
    assert_eq!(syncs.cancel_all_syncs(1), [11]);
    assert!(syncs.cancel_all_syncs(1).is_empty());
    assert_eq!(syncs.cancel_all_syncs(2), [20]);
}

#[test]
fn ended_sync_leaves_no_trace() {
    let mut syncs: ActiveSyncs<u32> = ActiveSyncs::new();
    syncs.register_sync(1, "b", 11);
    syncs.register_sync(1, "a", 10);
    syncs.unregister_sync(1, "a");
    assert_eq!(syncs.cancel_all_syncs(1), [11]);
    syncs.register_sync(1, "a", 10);
    syncs.unregister_sync(1, "a");
    assert!(syncs.cancel_all_syncs(1).is_empty());
}

#[test]
fn syncs_are_cancelled_in_the_order_they_began() {
    let mut syncs: ActiveSyncs<u32> = ActiveSyncs::new();
    for i in 0..4 {
        syncs.register_sync(9, "a", i);
    }
    assert_eq!(syncs.cancel_all_syncs(9), [0, 1, 2, 3]);
}

#[test]
fn everyone_is_allowed_without_a_list() {
    assert!(open_bot().is_allowed(12345));
    let config = WhitelistConfig { enabled: false, ids: vec![7] };
    let bot: Handler<u32> = Handler::new(Synchronizer::new(), HashSet::new(), Some(config));
    assert!(bot.is_allowed(12345));
    assert_eq!(bot.whitelist, HashSet::from([i64::MIN]));
}

#[test]
fn list_in_force_allows_admins_and_listed_chats() {
    let bot = closed_bot();
    assert_eq!(bot.whitelist, HashSet::from([7, 8]));
    for id in [1, 7, 8] {
        assert!(bot.is_allowed(id));
    }
    for id in [2, 5, -100, i64::MIN] {
        assert!(!bot.is_allowed(id));
    }
    let config = WhitelistConfig { enabled: true, ids: Vec::new() };
    let bot: Handler<u32> = Handler::new(Synchronizer::new(), HashSet::new(), Some(config));
    assert!(!bot.is_allowed(1));
}

#[test]
fn help_and_version_are_escaped() {
    let mut bot = open_bot();
    assert_eq!(reply(run(&mut bot, PRIVATE, Command::Help)), "help\\.");
    assert_eq!(reply(run(&mut bot, GROUP, Command::Version)), "v1\\.0");
    let text = bot.respond_cmd(PRIVATE, Command::Help, "_*[]()~`>#+-=|{}.!\\<a", "");
    assert_eq!(
        reply(text),
        "\\_\\*\\[\\]\\(\\)\\~\\`\\>\\#\\+\\-\\=\\|\\{\\}\\.\\!\\<a"
    );
}

#[test]
fn chat_ids_are_shown_as_code() {
    let mut bot = closed_bot();
    assert_eq!(reply(run(&mut bot, PRIVATE, Command::Id)), "Current chat id is `5`");
    assert_eq!(reply(run(&mut bot, GROUP, Command::Id)), "Current chat id is `-100`");
}

#[test]
fn cancel_stops_what_is_in_progress() {
    let mut bot = open_bot();
    bot.register_sync(5, "a", 1);
    bot.register_sync(5, "b", 2);
    bot.register_sync(6, "c", 3);
    bot.unregister_sync(6, "d");
    match run(&mut bot, PRIVATE, Command::Cancel) {
        Reaction::Cancel { handles, text } => {
            assert_eq!(handles, [1, 2]);
            assert_eq!(text, "Cancelled 2 sync operations\\.");
        }
        _ => panic!("a cancellation was expected"),
    }
    match run(&mut bot, PRIVATE, Command::Cancel) {
        Reaction::Cancel { handles, text } => {
            assert!(handles.is_empty());
            assert_eq!(text, "No active sync operations\\.");
        }
        _ => panic!("a cancellation was expected"),
    }
    bot.unregister_sync(6, "c");
    assert!(bot.active_syncs.cancel_all_syncs(6).is_empty());
}

#[test]
fn sync_command_starts_a_job() {
    let mut bot = open_bot();
    let input = "https://e-hentai.org/g/1/a 3 16".to_string();
    let j = job(run(&mut bot, PRIVATE, Command::Sync(input)));
    assert_eq!(j.url, "https://e-hentai.org/g/1/a");
    assert_eq!(j.prompt, "Syncing url https://e\\-hentai\\.org/g/1/a");
    assert_eq!(j.delivery, Delivery::Pages { start: Some(3), end: Some(16) });
    let input = "https://e-hentai.org/g/1/a/3".to_string();
    let j = job(run(&mut bot, GROUP, Command::Sync(input)));
    assert_eq!(j.url, "https://e-hentai.org/g/1/a");
    assert_eq!(j.delivery, Delivery::Images { start: 3, end: 3 });
}

#[test]
fn sync_command_without_input_is_explained() {
    let mut bot = open_bot();
    assert_eq!(
        reply(run(&mut bot, PRIVATE, Command::Sync(String::new()))),
        "Usage: /sync url \\[start\\] \\[end\\]"
    );
}

#[test]
fn chats_that_are_not_listed_are_refused() {
    let mut bot = closed_bot();
    let refusal = "User not authorized\\!";
    let input = "https://e-hentai.org/g/1/a".to_string();
    assert_eq!(reply(run(&mut bot, PRIVATE, Command::Sync(input.clone()))), refusal);
    assert!(matches!(run(&mut bot, GROUP, Command::Sync(input)), Reaction::Ignore));
    let urls = found(&[Some("u")]);
    assert_eq!(reply(bot.respond_text(PRIVATE, &urls)), refusal);
    assert!(matches!(bot.respond_text(GROUP, &urls), Reaction::Ignore));
    assert_eq!(reply(bot.respond_caption(PRIVATE, ScanEnd::MissingCaption, &found(&[]))), refusal);
    assert!(matches!(bot.respond_caption(GROUP, ScanEnd::Complete, &urls), Reaction::Ignore));
    match bot.respond_photo(PRIVATE, true) {
        PhotoStep::React(r) => assert_eq!(reply(r), refusal),
        _ => panic!("a refusal was expected"),
    }
    assert!(matches!(bot.respond_photo(GROUP, true), PhotoStep::React(Reaction::Ignore)));
}

#[test]
fn admins_delete_cache_entries() {
    let bot = open_bot();
    let d = bot.respond_admin_cmd(AdminCommand::Delete("nhentai|/g/1".to_string()));
    assert_eq!(d.key, "nhentai|/g/1");
    assert_eq!(d.text, "Key nhentai\\|/g/1 deleted\\.");
}

#[test]
fn text_messages_with_an_address_start_a_job() {
    let bot = open_bot();
    let j = job(bot.respond_text(PRIVATE, &found(&[None, Some("u/3"), Some("v")])));
    assert_eq!((j.url.as_str(), j.prompt.as_str()), ("u/3", "Syncing url u/3"));
    assert_eq!(j.delivery, Delivery::Pages { start: None, end: None });
    assert!(matches!(bot.respond_text(PRIVATE, &found(&[None])), Reaction::Continue));
}

#[test]
fn captions_with_an_address_start_a_job() {
    let bot = open_bot();
    for end in [ScanEnd::Complete, ScanEnd::Undecodable, ScanEnd::MissingCaption] {
        assert_eq!(job(bot.respond_caption(GROUP, end, &found(&[Some("u")]))).url, "u");
    }
    let none = found(&[None]);
    assert!(matches!(bot.respond_caption(GROUP, ScanEnd::Complete, &none), Reaction::Continue));
    assert!(matches!(bot.respond_caption(GROUP, ScanEnd::Undecodable, &none), Reaction::Ignore));
}

fn hit(similarity: u8, parsed: Parsed) -> SearchHit {
    SearchHit { similarity, parsed }
}

#[test]
fn photos_are_searched_for() {
    let bot = open_bot();
    assert!(matches!(bot.respond_photo(GROUP, true), PhotoStep::Search));
    assert!(matches!(bot.respond_photo(GROUP, false), PhotoStep::React(Reaction::Continue)));
}

#[test]
fn first_similar_result_counts() {
    let bot = open_bot();
    let results = vec![
        hit(69, Parsed::EHentai("low".to_string())),
        hit(95, Parsed::Other),
        hit(70, Parsed::NHentai("177013".to_string())),
        hit(99, Parsed::EHentai("later".to_string())),
    ];
    match bot.photo_searched(GROUP, &results) {
        PhotoStep::React(r) => {
            let j = job(r);
            assert_eq!(j.url, "https://nhentai.net/g/177013/");
            assert_eq!(j.prompt, "Syncing url https://nhentai\\.net/g/177013/");
        }
        _ => panic!("a synchronization was expected"),
    }
    match bot.photo_searched(PRIVATE, &results) {
        PhotoStep::Convert(hash) => assert_eq!(hash, "low"),
        _ => panic!("a hash was expected"),
    }
    assert_eq!(job(bot.photo_converted("u".to_string())).url, "u");
}

#[test]
fn dissimilar_results_do_not_count() {
    let bot = open_bot();
    let results = vec![hit(49, Parsed::EHentai("h".to_string())), hit(100, Parsed::Other)];
    assert!(matches!(
        bot.photo_searched(PRIVATE, &results),
        PhotoStep::React(Reaction::Continue)
    ));
    let results = vec![hit(50, Parsed::EHentai("h".to_string()))];
    assert!(matches!(bot.photo_searched(PRIVATE, &results), PhotoStep::Convert(_)));
    assert!(matches!(bot.photo_searched(GROUP, &results), PhotoStep::React(Reaction::Continue)));
}

#[test]
fn other_messages_are_answered_in_private() {
    let bot = closed_bot();
    assert_eq!(
        reply(bot.respond_default(PRIVATE)),
        "Unrecognized message\\. Maybe /help ?"
    );
    assert!(matches!(bot.respond_default(GROUP), Reaction::Ignore));
}

#[test]
fn outcomes_are_reported() {
    let url = "https://telegra.ph/a_(b)-01";
    assert_eq!(
        sync_range_response(&SyncOutcome::Finished(url.to_string())),
        "Sync to telegraph finished: \
         [https://telegra\\.ph/a\\_\\(b\\)\\-01](https://telegra.ph/a_(b\\)-01)"
    );
    assert_eq!(
        sync_range_response(&SyncOutcome::Failed("no.".to_string())),
        "Sync to telegraph failed: no\\."
    );
    assert_eq!(sync_range_response(&SyncOutcome::Cancelled), "Sync operation was cancelled.");
}

fn fetched(count: usize) -> FetchOutcome {
    let meta = AlbumMeta {
        link: "https://e-hentai.org/g/1/a".to_string(),
        name: "N.".to_string(),
        class: None,
        description: None,
        authors: None,
        tags: None,
    };
    let images = (0..count)
        .map(|i| {
            let meta = ImageMeta { id: i.to_string(), url: String::new(), description: None };
            (meta, vec![i as u8])
        })
        .collect();
    FetchOutcome::Fetched { meta, images }
}

fn edited(action: MediaAction) -> String {
    match action {
        MediaAction::Edit(text) => text,
        MediaAction::Send(_) => panic!("nothing should be sent"),
    }
}

#[test]
fn images_are_sent_with_one_caption() {
    match send_media_group_response(fetched(3), 4, 6) {
        MediaAction::Send(photos) => {
            assert_eq!(photos.len(), 3);
            assert_eq!(
                photos[0].caption.as_deref(),
                Some("[N\\. \\(Pages 4\\-6\\)](https://e-hentai.org/g/1/a)")
            );
            assert!(photos[1].caption.is_none() && photos[2].caption.is_none());
            let data: Vec<u8> = photos.iter().map(|p| p.data[0]).collect();
            assert_eq!(data, [0, 1, 2]);
        }
        MediaAction::Edit(_) => panic!("the images should be sent"),
    }
}

#[test]
fn failed_fetches_are_reported() {
    assert_eq!(
        edited(send_media_group_response(fetched(0), 1, 2)),
        "Failed: No images found in this range\\."
    );
    assert_eq!(
        edited(send_media_group_response(FetchOutcome::Failed("x!".to_string()), 1, 2)),
        "Fetch failed: x\\!"
    );
    assert_eq!(
        edited(send_media_group_response(FetchOutcome::Cancelled, 1, 2)),
        "Operation cancelled by user\\."
    );
}

#[test]
fn prompts_go_once_the_images_are_sent() {
    assert!(matches!(media_group_sent(true), PromptAction::Delete));
    match media_group_sent(false) {
        PromptAction::Edit(text) => assert_eq!(text, "Failed to send media group\\."),
        PromptAction::Delete => panic!("the prompt should stay"),
    }
}
