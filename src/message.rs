use vstd::prelude::*;

verus! {

/// Who sent a chat message.
#[derive(Clone, Debug)]
pub struct Sender {
    pub user_id: u64,
    pub nickname: String,
    /// Group card: the name shown in the group, where members put their callsign.
    pub card: String,
    pub role: String,
    pub title: String,
}

/// One element of a chat message.
#[derive(Clone, Debug)]
pub enum MessageElement {
    At { qq: String, name: String },
    Text { text: String },
    Unknown,
}

/// A chat message event, as the bot framework delivers it.
#[derive(Clone, Debug)]
pub struct MessageEvent {
    pub self_id: u64,
    pub user_id: u64,
    pub time: i64,
    pub message_id: u64,
    pub message_seq: u64,
    pub message_type: String,
    pub sender: Sender,
    pub raw_message: String,
    pub font: u32,
    pub sub_type: String,
    pub message: Vec<MessageElement>,
    pub message_format: String,
    pub post_type: String,
    pub group_id: u64,
}

/// One element of a chat message, in the form passed between bot processes.
#[derive(Clone, Debug)]
pub enum BinMessageElement {
    At { qq: String, name: String },
    Text { text: String },
    Unknown,
}

/// A chat message event, in the form passed between bot processes.
#[derive(Clone, Debug)]
pub struct BinMessageEvent {
    pub self_id: u64,
    pub user_id: u64,
    pub time: i64,
    pub message_id: u64,
    pub message_seq: u64,
    pub message_type: String,
    pub sender: Sender,
    pub raw_message: String,
    pub font: u32,
    pub sub_type: String,
    pub message: Vec<BinMessageElement>,
    pub message_format: String,
    pub post_type: String,
    pub group_id: u64,
}

/// What one bot process sends another.
#[derive(Clone, Debug)]
pub struct MsgContent {
    pub command: Option<String>,
    pub payload: Option<BinMessageEvent>,
    pub message: Option<String>,
    pub api_response: Option<crate::response::ApiResponse<Vec<String>>>,
}

impl MsgContent {
    /// Content that carries a plain message and nothing else.
    pub fn msg_only(message: String) -> (r: Self)
        ensures
            r.command is None,
            r.payload is None,
            r.message == Some(message),
            r.api_response is None,
    {
        MsgContent { command: None, payload: None, message: Some(message), api_response: None }
    }
}

/// Frames exchanged between bot processes.
#[derive(Clone, Debug)]
pub enum BotMessage {
    Heartbeat,
    Pong,
    Chat { from: String, to: String, content: MsgContent },
}

} // verus!
