use eh2telegraph::node::{Node, Tag};
use eh2telegraph::telegraph::{
    AccessToken, PageCreate, PageEdit, RandomAccessToken, SingleAccessToken, Telegraph,
    TelegraphError, TelegraphToken,
};
use eh2telegraph::upload::{image_file_name, media_of, parse_reply};
use std::sync::Arc;

fn field<'a>(fields: &'a [(String, String)], name: &str) -> Option<&'a str> {
    fields.iter().find(|f| f.0 == name).map(|f| f.1.as_str())
}

#[test]
fn single_token_is_always_the_same() {
    let source = SingleAccessToken::from("t".to_string());
    assert_eq!(source.token(), "t");
    assert_eq!(source.select_token("/a"), "t");
    assert_eq!(*source.0, "t");
}

#[test]
fn random_tokens_are_among_the_given() {
    let tokens: Vec<String> = ["a", "b", "c"].iter().map(|s| s.to_string()).collect();
    let source = RandomAccessToken::from_tokens(tokens.clone());
    let mut seen: Vec<String> = Vec::new();
    for _ in 0..2000 {
        let token = source.token().to_string();
        assert!(tokens.contains(&token));
        assert!(tokens.contains(&source.select_token("/p").to_string()));
        if !seen.contains(&token) {
            seen.push(token);
        }
    }
    assert_eq!(seen.len(), 3);
    let one = RandomAccessToken::from("only".to_string());
    assert_eq!(one.token(), "only");
}

#[test]
fn service_tokens_compare_by_text() {
    let a = TelegraphToken::from(Arc::new("x".to_string()));
    let b = TelegraphToken::from(Arc::new("x".to_string()));
    let c = TelegraphToken::from(Arc::new("y".to_string()));
    assert!(a == b);
    assert!(a != c);
    let text: Arc<String> = a.into();
    assert_eq!(*text, "x");
}

#[test]
fn page_creation_form() {
    let tg: Telegraph<SingleAccessToken, u8> = Telegraph::new(7, "secret".to_string());
    assert_eq!(*tg.client(), 7);
    let page = PageCreate {
        title: "\u{756b}".repeat(201),
        content: Vec::new(),
        author_name: Some("who".to_string()),
        author_url: None,
    };
    let post = tg.create_page(&page, "[]");
    assert_eq!(post.url, "https://api.telegra.ph/createPage");
    let names: Vec<&str> = post.fields.iter().map(|f| f.0.as_str()).collect();
    assert_eq!(names, ["access_token", "title", "content", "author_name"]);
    assert_eq!(field(&post.fields, "access_token"), Some("secret"));
    assert_eq!(field(&post.fields, "title"), Some("\u{756b}".repeat(200).as_str()));
    assert_eq!(field(&post.fields, "content"), Some("[]"));
    assert_eq!(field(&post.fields, "author_name"), Some("who"));
}

#[test]
fn token_sources_at_hand_are_used() {
    let tokens = RandomAccessToken::from_tokens(vec!["only".to_string()]);
    let tg = Telegraph::with_token(3u8, tokens);
    assert_eq!(*tg.client(), 3);
    let page = PageCreate {
        title: "t".to_string(),
        content: Vec::new(),
        author_name: None,
        author_url: None,
    };
    let post = tg.create_page(&page, "[]");
    assert_eq!(field(&post.fields, "access_token"), Some("only"));
}

#[test]
fn page_edit_form() {
    let tg: Telegraph<SingleAccessToken, u8> = Telegraph::new(7, "secret".to_string());
    let tg = tg.with_proxy("proxy");
    assert_eq!(*tg.client(), "proxy");
    let page = PageEdit {
        title: "t".to_string(),
        path: "p-01".to_string(),
        content: Vec::new(),
        author_name: None,
        author_url: Some("https://a.b".to_string()),
    };
    let post = tg.edit_page(&page, "[1]");
    assert_eq!(post.url, "https://api.telegra.ph/editPage");
    let expected: Vec<(String, String)> = [
        ("access_token", "secret"),
        ("title", "t"),
        ("path", "p-01"),
        ("content", "[1]"),
        ("author_url", "https://a.b"),
    ]
    .iter()
    .map(|f| (f.0.to_string(), f.1.to_string()))
    .collect();
    assert_eq!(post.fields, expected);
}

#[test]
fn file_names_by_signature() {
    assert_eq!(image_file_name(&b"GIF89a...".to_vec()), "image.gif");
    assert_eq!(image_file_name(&b"GIF8".to_vec()), "image.gif");
    assert_eq!(image_file_name(&b"GIF".to_vec()), "image.jpg");
    assert_eq!(image_file_name(&b"\x89PNG\r\n\x1a\n..".to_vec()), "image.png");
    assert_eq!(image_file_name(&b"\x89PNG\r\n\x1a".to_vec()), "image.jpg");
    assert_eq!(image_file_name(&b"RIFF....WEBP".to_vec()), "image.jpg");
    assert_eq!(image_file_name(&Vec::new()), "image.jpg");
}

#[test]
fn replies_of_the_image_host() {
    let ok = parse_reply(br#"{"data":{"url":"https://i.ibb.co/x.png","id":1},"success":true}"#);
    assert_eq!(ok.ok().unwrap().src, "https://i.ibb.co/x.png");
    let without = [
        &br#"{"data":{"url":5}}"#[..],
        &br#"{"data":{}}"#[..],
        &br#"{"url":"x"}"#[..],
        &br#"[]"#[..],
        &br#"null"#[..],
    ];
    for body in without {
        assert!(matches!(parse_reply(body), Err(TelegraphError::Server)));
    }
    for body in [&b"<html>"[..], &b""[..], &br#"{"data":{"url":"x"}} x"#[..]] {
        let parsed: Result<serde_json::Value, serde_json::Error> = serde_json::from_slice(body);
        let cause = parsed.err().unwrap().to_string();
        match parse_reply(body) {
            Err(TelegraphError::Reqwest(text)) => {
                assert_eq!(text, format!("error decoding response body: {cause}"));
            }
            _ => panic!("a reply that is no document was accepted"),
        }
    }
}

#[test]
fn replies_are_judged_by_what_they_hold() {
    assert_eq!(media_of(Ok(Some("u".to_string()))).ok().unwrap().src, "u");
    assert!(matches!(media_of(Ok(None)), Err(TelegraphError::Server)));
    match media_of(Err("bad".to_string())) {
        Err(TelegraphError::Reqwest(text)) => {
            assert_eq!(text, "error decoding response body: bad");
        }
        _ => panic!("a reply that is no document was accepted"),
    }
}

#[test]
fn files_are_uploaded_one_by_one() {
    let tg: Telegraph<SingleAccessToken, ()> = Telegraph::new((), "t".to_string());
    let files = vec![b"GIF89a".to_vec(), b"other".to_vec()];
    let mut run = tg.upload(Some("key".to_string()), files).ok().unwrap();
    {
        let form = run.request().unwrap();
        assert_eq!(form.url, "https://api.imgbb.com/1/upload");
        assert_eq!(form.key, "key");
        assert_eq!(form.file_name, "image.gif");
        assert_eq!(form.data, &b"GIF89a".to_vec());
    }
    assert!(run.reply(br#"{"data":{}}"#).is_err());
    assert_eq!(run.request().unwrap().file_name, "image.gif");
    assert!(run.reply(br#"{"data":{"url":"u1"}}"#).is_ok());
    assert_eq!(run.request().unwrap().file_name, "image.jpg");
    assert!(run.reply(br#"{"data":{"url":"u2"}}"#).is_ok());
    assert!(run.request().is_none());
    let media: Vec<String> = run.finish().into_iter().map(|m| m.src).collect();
    assert_eq!(media, ["u1", "u2"]);
}

#[test]
fn nothing_is_uploaded_without_a_key() {
    let tg: Telegraph<SingleAccessToken, ()> = Telegraph::new((), "t".to_string());
    assert!(matches!(tg.upload(None, vec![b"x".to_vec()]), Err(TelegraphError::Server)));
    let run = tg.upload(Some("k".to_string()), Vec::new()).ok().unwrap();
    assert!(run.request().is_none());
    assert!(run.finish().is_empty());
}

#[test]
fn nodes_of_pages() {
    assert!(matches!(Node::new_text("t"), Node::Text(t) if t == "t"));
    match Node::new_image("s") {
        Node::NodeElement(e) => {
            assert_eq!(e.tag, Tag::Img);
            assert!(e.children.is_none());
            let attrs = e.attrs.unwrap();
            assert_eq!(attrs.src.as_deref(), Some("s"));
            assert!(attrs.href.is_none());
        }
        _ => panic!("an image is an element"),
    }
    match Node::new_anchor("h", "t") {
        Node::NodeElement(e) => {
            assert_eq!(e.tag, Tag::A);
            assert_eq!(e.attrs.unwrap().href.as_deref(), Some("h"));
            assert_eq!(e.children.unwrap().len(), 1);
        }
        _ => panic!("a link is an element"),
    }
    match Node::new_paragraph(vec![Node::new_text("a"), Node::new_text("b")]) {
        Node::NodeElement(e) => {
            assert_eq!(e.tag, Tag::P);
            assert!(e.attrs.is_none());
            assert_eq!(e.children.unwrap().len(), 2);
        }
        _ => panic!("a paragraph is an element"),
    }
}
