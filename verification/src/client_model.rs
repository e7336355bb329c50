//! Client-side data model: view states, user-facing messages, the log pane
//! model, host selection, and the command channel shapes of the client
//! services.
use vstd::prelude::*;

verus! {

/// Which view the client application shows.
#[derive(Debug, Clone, PartialEq)]
pub enum AppState {
    CheckingSession,
    Registration,
    MainActions,
    PrivateChat(String),
    GroupChat(String, String),
    UsersList(String),
    FriendRequests,
    Chat,
    CreateGroup,
    MyGroups,
    InviteToGroup { group_id: String, group_name: String },
    MyGroupInvites,
    SendFriendRequest,
    ViewFriends,
}

impl Default for AppState {
    /// A fresh client starts by checking for a stored session.
    fn default() -> (r: AppState)
        ensures
            r == AppState::CheckingSession,
    {
        AppState::CheckingSession
    }
}

/// One displayed chat message.
#[derive(Debug, Clone)]
pub struct ChatMessage {
    pub sender: String,
    pub content: String,
    pub timestamp: i64,
    pub formatted_time: String,
    pub sent_at: i64,
}

/// Severity of a log pane entry.
#[derive(Debug, Clone)]
pub enum LogLevel {
    Success,
    Error,
    Info,
    Warning,
}

/// One log pane entry.
#[derive(Debug, Clone)]
pub struct LogMessage {
    pub level: LogLevel,
    pub message: String,
}

impl LogMessage {
    /// The marker shown before the entry, by severity.
    pub fn emoji(&self) -> (r: &'static str)
        ensures
            self.level is Success ==> r@ == "\u{2705}"@,
            self.level is Error ==> r@ == "\u{274c}"@,
            self.level is Info ==> r@ == "\u{2139}\u{fe0f}"@,
            self.level is Warning ==> r@ == "\u{26a0}\u{fe0f}"@,
    {
        match self.level {
            LogLevel::Success => "\u{2705}",
            LogLevel::Error => "\u{274c}",
            LogLevel::Info => "\u{2139}\u{fe0f}",
            LogLevel::Warning => "\u{26a0}\u{fe0f}",
        }
    }
}

/// Which server host the client connects to.
#[derive(Debug, Clone, Copy, PartialEq, Eq, Structural)]
pub enum HostType {
    Localhost,
    Remote,
    Manual,
}

impl HostType {
    /// The selectable host kinds, in display order.
    pub fn all() -> (r: Vec<HostType>)
        ensures
            r@ =~= seq![HostType::Localhost, HostType::Remote, HostType::Manual],
    {
        let mut v: Vec<HostType> = Vec::new();
        v.push(HostType::Localhost);
        v.push(HostType::Remote);
        v.push(HostType::Manual);
        v
    }

    /// The display label of the host kind.
    pub fn to_str(&self) -> (r: &'static str)
        ensures
            *self is Localhost ==> r@ == "Localhost"@,
            *self is Remote ==> r@ == "Remote"@,
            *self is Manual ==> r@ == "Manual"@,
    {
        match self {
            HostType::Localhost => "Localhost",
            HostType::Remote => "Remote",
            HostType::Manual => "Manual",
        }
    }
}

impl Default for HostType {
    /// Local connections are the default.
    fn default() -> (r: HostType)
        ensures
            r == HostType::Localhost,
    {
        HostType::Localhost
    }
}

/// The whole client view state.
#[derive(Debug, Clone, Default)]
pub struct ChatAppState {
    pub app_state: AppState,
    pub username: String,
    pub password: String,
    pub selected_host: HostType,
    pub manual_host: String,
    pub is_login: bool,
    pub loading: bool,
    pub error_message: Option<String>,
    pub session_token: Option<String>,
    pub show_password: bool,
    pub logger: Vec<LogMessage>,
    pub users_search_query: String,
    pub users_search_results: Vec<String>,
    pub current_message_input: String,
    pub private_chats: Vec<(String, Vec<ChatMessage>)>,
    pub loading_private_chats: Vec<String>,
    pub polling_active: bool,
    pub group_chats: Vec<(String, Vec<ChatMessage>)>,
    pub loading_group_chats: Vec<String>,
    pub group_polling_active: bool,
    pub create_group_name: String,
    pub selected_participants: Vec<String>,
    pub my_groups: Vec<(String, String, usize)>,
    pub loading_groups: bool,
    pub my_group_invites: Vec<(i64, String, String)>,
    pub loading_invites: bool,
    pub friends_list: Vec<String>,
    pub friend_requests: Vec<(String, String)>,
}

/// Every user action and service event the client reacts to.
#[derive(Debug, Clone)]
pub enum Message {
    Logout,
    Idle,
    ManualHostChanged(String),
    UsernameChanged(String),
    PasswordChanged(String),
    HostSelected(HostType),
    ToggleLoginRegister,
    SubmitLoginOrRegister,
    AuthResult { success: bool, message: String, token: Option<String> },
    SessionMissing,
    ClearLog,
    LogInfo(String),
    LogSuccess(String),
    LogError(String),
    ToggleShowPassword,
    OpenFriendRequests,
    OpenMainActions,
    OpenPrivateChat(String),
    OpenGroupChat(String, String),
    OpenUsersList { kind: String },
    UsersSearchQueryChanged(String),
    UsersSearch,
    UsersListLoaded { kind: String, list: Vec<String> },
    SendGroupMessageTest,
    SendPrivateMessageTest,
    GetGroupMessagesTest,
    GetPrivateMessagesTest,
    DeleteGroupMessagesTest,
    DeletePrivateMessagesTest,
    SendFriendRequest { to: String, message: String },
    AcceptFriendRequest { from: String },
    RejectFriendRequest { from: String },
    ListFriends,
    ReceivedFriendRequests,
    SentFriendRequests,
    ListOnlineUsers,
    ListAllUsers,
    CreateGroup { name: String },
    MyGroups,
    InviteToGroup { group_id: String, username: String },
    AcceptGroupInvite { invite_id: String },
    RejectGroupInvite { invite_id: String },
    MyGroupInvites,
    JoinGroup { group_id: String },
    LeaveGroup { group_id: String },
    MessageInputChanged(String),
    SendPrivateMessage { to: String },
    LoadPrivateMessages { with: String },
    PrivateMessagesLoaded { with: String, messages: Vec<ChatMessage> },
    StartMessagePolling { with: String },
    StopMessagePolling,
    NewMessagesReceived { with: String, messages: Vec<ChatMessage> },
    TriggerImmediateRefresh { with: String },
    SendGroupMessage { group_id: String },
    LoadGroupMessages { group_id: String },
    GroupMessagesLoaded { group_id: String, messages: Vec<ChatMessage> },
    StartGroupMessagePolling { group_id: String },
    StopGroupMessagePolling,
    NewGroupMessagesReceived { group_id: String, messages: Vec<ChatMessage> },
    TriggerImmediateGroupRefresh { group_id: String },
}

/// A queued request of the client's background connection: one line to
/// send, expecting a single-line or a multi-line answer.
#[derive(Debug)]
pub enum CommandType {
    SingleLine(String),
    MultiLine(String),
}

/// Client-side faults of the auxiliary real-time connection.
#[derive(Debug, Clone)]
pub enum WebSocketError {
    ConnectionFailed(String),
    AuthenticationFailed(String),
    MessageSendFailed(String),
    Disconnected,
    InvalidMessage(String),
    Timeout,
}

impl WebSocketError {
    /// A readable description of the fault.
    pub fn message(&self) -> (r: String)
        ensures
            *self is Disconnected ==> r@ == "WebSocket disconnected"@,
            *self is Timeout ==> r@ == "Operation timed out"@,
    {
        match self {
            WebSocketError::ConnectionFailed(m) => {
                let mut r = String::from_str("Connection failed: ");
                r.append(m.as_str());
                r
            },
            WebSocketError::AuthenticationFailed(m) => {
                let mut r = String::from_str("Authentication failed: ");
                r.append(m.as_str());
                r
            },
            WebSocketError::MessageSendFailed(m) => {
                let mut r = String::from_str("Message send failed: ");
                r.append(m.as_str());
                r
            },
            WebSocketError::Disconnected => String::from_str("WebSocket disconnected"),
            WebSocketError::InvalidMessage(m) => {
                let mut r = String::from_str("Invalid message: ");
                r.append(m.as_str());
                r
            },
            WebSocketError::Timeout => String::from_str("Operation timed out"),
        }
    }
}

/// The authentication request of the real-time connection, as the client
/// sends it.
#[derive(Debug, Clone)]
pub struct AuthMessage {
    pub message_type: String,
    pub session_token: String,
}

/// The authentication answer of the real-time connection, as the client
/// reads it.
#[derive(Debug, Clone)]
pub struct AuthResponse {
    pub message_type: String,
    pub success: bool,
    pub user_id: Option<String>,
    pub error: Option<String>,
}

/// Client-side access to the friend and private-message commands. The
/// transport lives outside; this type names the service.
#[derive(Debug, Default)]
pub struct FriendService;

impl FriendService {
    pub fn new() -> (r: FriendService)
        ensures
            r == (FriendService {  }),
    {
        FriendService {  }
    }
}

/// Client-side access to the group commands. The transport lives outside;
/// this type names the service.
#[derive(Debug, Default)]
pub struct GroupService;

impl GroupService {
    pub fn new() -> (r: GroupService)
        ensures
            r == (GroupService {  }),
    {
        GroupService {  }
    }
}

} // verus!
