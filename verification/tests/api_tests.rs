use collab_core::auth::{AuthData, LoginData, SignUpData};
use collab_core::chat::{ChatMessage, ChatRequest, ChatResponse};
use collab_core::files::{file_content_response, SaveFileRequest};
use collab_core::store::create_initial_data;

#[test]
fn file_content_response_shapes_a_found_file() {
    let store = create_initial_data();
    let resp = file_content_response(&store, 2).expect("file 2 is seeded");
    assert_eq!(resp.id, 2);
    assert_eq!(resp.name, "style.css");
    assert_eq!(resp.content, "h1 {\n  color: steelblue;\n  font-family: sans-serif;\n}");
}

#[test]
fn file_content_response_reports_an_absent_id() {
    let store = create_initial_data();
    assert!(file_content_response(&store, 77).is_none());
}

#[test]
fn save_request_after_lookup_round_trips() {
    let mut store = create_initial_data();
    let req = SaveFileRequest { id: 3, content: "console.log('changed');".to_string() };
    assert!(store.save_file(req.id, req.content));
    let resp = file_content_response(&store, 3).unwrap();
    assert_eq!(resp.content, "console.log('changed');");
    assert_eq!(resp.name, "script.js");
}

#[test]
fn request_shapes_carry_their_fields() {
    let auth = AuthData {
        username: "alice".to_string(),
        password: "secret".to_string(),
        room_id: "public_room".to_string(),
    };
    assert_eq!(auth.username, "alice");
    assert_eq!(auth.password, "secret");
    assert_eq!(auth.room_id, "public_room");

    let login = LoginData {
        username: "bob".to_string(),
        password: "pw".to_string(),
        room_id: "r".to_string(),
    };
    assert_eq!(login.username, "bob");

    let signup = SignUpData {
        username: "carol".to_string(),
        password: "pw2".to_string(),
        room_id: "r2".to_string(),
    };
    assert_eq!(signup.room_id, "r2");

    let chat = ChatRequest {
        conversation_id: "c1".to_string(),
        messages: [ChatMessage { role: "user".to_string(), content: "hi".to_string() }].to_vec(),
    };
    assert_eq!(chat.messages.len(), 1);
    assert_eq!(chat.messages[0].role, "user");

    let reply = ChatResponse { reply: "hello".to_string() };
    assert_eq!(reply.reply, "hello");
}
