//! Commands to the worker, messages to the user interface, and what the shell
//! says on its way.
use vstd::prelude::*;

verus! {

/// Commands the main thread can send to the worker.
#[derive(Debug, Clone, Copy, PartialEq, Eq, Structural)]
pub enum WorkerCmd {
    /// Boot the runtime (install if needed) and start a dsh session.
    Start,
    /// Kill the current session and start a fresh one.
    Restart,
    /// Kill the current session and stay idle.
    Stop,
    /// Check npm for a newer dsh; install it when found.
    CheckUpdate,
    /// Kill the session and shut the worker down.
    Quit,
}

/// Messages the worker (or the menu and tray bridges) push to the UI loop.
#[derive(Debug, Clone)]
pub enum UiMsg {
    /// One-line status for the loading page and the log.
    Status(String),
    /// `dsh web` is listening; `url` is the authenticated local URL.
    Ready { session: u64, url: String },
    /// The dsh child exited.
    Exited { session: u64, code: Option<i32>, uptime_secs: u64 },
    /// Human-readable update-check result.
    UpdateInfo(String),
    /// A menu item was activated (its item id).
    Menu(String),
    /// Left click on the tray icon.
    TrayLeftClick,
    /// The worker finished shutting down; safe to exit.
    Bye,
}

/// A message, with its texts as sequences of characters.
#[verifier::ext_equal]
pub enum UiMsgView {
    Status(Seq<char>),
    Ready { session: u64, url: Seq<char> },
    Exited { session: u64, code: Option<i32>, uptime_secs: u64 },
    UpdateInfo(Seq<char>),
    Menu(Seq<char>),
    TrayLeftClick,
    Bye,
}

impl View for UiMsg {
    type V = UiMsgView;

    open spec fn view(&self) -> UiMsgView {
        match self {
            UiMsg::Status(s) => UiMsgView::Status(s@),
            UiMsg::Ready { session, url } => UiMsgView::Ready { session: *session, url: url@ },
            UiMsg::Exited { session, code, uptime_secs } => UiMsgView::Exited {
                session: *session,
                code: *code,
                uptime_secs: *uptime_secs,
            },
            UiMsg::UpdateInfo(s) => UiMsgView::UpdateInfo(s@),
            UiMsg::Menu(s) => UiMsgView::Menu(s@),
            UiMsg::TrayLeftClick => UiMsgView::TrayLeftClick,
            UiMsg::Bye => UiMsgView::Bye,
        }
    }
}

/// What a procedure says on its way.
#[derive(Debug)]
pub enum Note {
    /// A line for the log.
    Log(String),
    /// A message for the user interface.
    Ui(UiMsg),
}

/// A note, with its texts as sequences of characters.
#[verifier::ext_equal]
pub enum NoteView {
    Log(Seq<char>),
    Ui(UiMsgView),
}

impl View for Note {
    type V = NoteView;

    open spec fn view(&self) -> NoteView {
        match self {
            Note::Log(s) => NoteView::Log(s@),
            Note::Ui(m) => NoteView::Ui(m@),
        }
    }
}

impl DeepView for Note {
    type V = NoteView;

    open spec fn deep_view(&self) -> NoteView {
        self@
    }
}

/// The view of a message holds all that the message holds.
pub proof fn lemma_ui_msg_view(
    text: String,
    session: u64,
    code: Option<i32>,
    uptime_secs: u64,
)
    ensures
        UiMsg::Status(text)@ == UiMsgView::Status(text@),
        (UiMsg::Ready { session, url: text })@ == (UiMsgView::Ready { session, url: text@ }),
        (UiMsg::Exited { session, code, uptime_secs })@ == (UiMsgView::Exited {
            session,
            code,
            uptime_secs,
        }),
        UiMsg::UpdateInfo(text)@ == UiMsgView::UpdateInfo(text@),
        UiMsg::Menu(text)@ == UiMsgView::Menu(text@),
        UiMsg::TrayLeftClick@ is TrayLeftClick,
        UiMsg::Bye@ is Bye,
{
}

/// The view of a note holds all that the note holds.
pub proof fn lemma_note_view(line: String, msg: UiMsg)
    ensures
        Note::Log(line).deep_view() == NoteView::Log(line@),
        Note::Log(line)@ == NoteView::Log(line@),
        Note::Ui(msg).deep_view() == NoteView::Ui(msg@),
        Note::Ui(msg)@ == NoteView::Ui(msg@),
{
}

} // verus!
