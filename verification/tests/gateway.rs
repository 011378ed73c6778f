use aiss::gateway::{ChatMessage, Role};

#[test]
fn chat_message_constructors() {
    let sys = ChatMessage::system("hi");
    assert_eq!(sys.role, Role::System);
    assert_eq!(sys.content, "hi");

    let user = ChatMessage::user("question");
    assert_eq!(user.role, Role::User);

    let assistant = ChatMessage::assistant("answer");
    assert_eq!(assistant.role, Role::Assistant);
}
