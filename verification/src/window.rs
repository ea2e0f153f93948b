//! The decisions of the viewer's window procedure and message loop, taken
//! on plain values: the caller performs the Win32 calls that they name.

use vstd::prelude::*;
use crate::cache::{wide_of, WideCache};
use crate::lens::{capped_total, pretty_size, pretty_size_text, DirEntry};
use crate::wide::to_wstring;

verus! {

/// `WM_CREATE`: the window is being created.
pub const WM_CREATE: u32 = 0x0001;

/// `WM_DESTROY`: the window is being destroyed.
pub const WM_DESTROY: u32 = 0x0002;

/// `WM_SIZE`: the window's size changed.
pub const WM_SIZE: u32 = 0x0005;

/// `WM_CLOSE`: the window is asked to close.
pub const WM_CLOSE: u32 = 0x0010;

/// `WM_NOTIFY`: a control sends a notification.
pub const WM_NOTIFY: u32 = 0x004E;

/// `WM_COMMAND`: a control sends a command.
pub const WM_COMMAND: u32 = 0x0111;

/// `LVM_INSERTITEMW` (`LVM_FIRST + 77`), seen when an item is inserted.
pub const LVM_INSERTITEMW: u32 = 4173;

/// `LVM_INSERTCOLUMNW` (`LVM_FIRST + 97`), seen when a column is inserted.
pub const LVM_INSERTCOLUMNW: u32 = 4193;

/// `LVN_GETDISPINFOA` (`LVN_FIRST - 50`, `LVN_FIRST` being -100 as a `u32`).
pub const LVN_GETDISPINFOA: u32 = 4294967146;

/// `LVN_GETDISPINFOW` (`LVN_FIRST - 77`).
pub const LVN_GETDISPINFOW: u32 = 4294967119;

/// `LVN_ODCACHEHINT` (`LVN_FIRST - 13`).
pub const LVN_ODCACHEHINT: u32 = 4294967183;

/// `LVN_ODFINDITEMW` (`LVN_FIRST - 79`).
pub const LVN_ODFINDITEMW: u32 = 4294967117;

/// `LVIF_TEXT`: the item's text is asked for.
pub const LVIF_TEXT: u32 = 0x0001;

/// `LVIF_IMAGE`: the item's image is asked for.
pub const LVIF_IMAGE: u32 = 0x0002;

/// `LVIF_STATE`: the item's state is asked for.
pub const LVIF_STATE: u32 = 0x0008;

/// The control id of the edit box above the list.
pub const IDC_MAIN_EDIT: u16 = 100;

/// The control id meant for the list view.
pub const IDC_MAIN_LISTVIEW: u16 = 101;

/// The text buffer size announced for each column.
pub const MAX_TEXT_LEN: i32 = 250;

/// The width of each column, in pixels.
pub const COLUMN_WIDTH: i32 = 200;

/// The height of the strip above the list that holds the edit box.
pub const EDIT_STRIP_HEIGHT: i32 = 30;

/// The units of the edit box's text buffer past the two terminating NULs.
pub const EDIT_BUFFER_EXTRA: usize = 256;

/// What the window procedure does with a message.
#[derive(Debug, Clone, Copy, PartialEq, Eq, Structural)]
pub enum Message {
    Create,
    Notify,
    Command,
    Size,
    Close,
    Destroy,
    ItemInserted,
    ColumnInserted,
    Unhandled,
}

/// What a message number asks of the window procedure.
pub open spec fn message_kind(msg: u32) -> Message {
    if msg == WM_CREATE {
        Message::Create
    } else if msg == WM_NOTIFY {
        Message::Notify
    } else if msg == WM_COMMAND {
        Message::Command
    } else if msg == WM_SIZE {
        Message::Size
    } else if msg == WM_CLOSE {
        Message::Close
    } else if msg == WM_DESTROY {
        Message::Destroy
    } else if msg == LVM_INSERTITEMW {
        Message::ItemInserted
    } else if msg == LVM_INSERTCOLUMNW {
        Message::ColumnInserted
    } else {
        Message::Unhandled
    }
}

/// Sorts a window message into what the window procedure does with it.
pub fn classify_message(msg: u32) -> (kind: Message)
    ensures
        kind == message_kind(msg),
{
    if msg == WM_CREATE {
        Message::Create
    } else if msg == WM_NOTIFY {
        Message::Notify
    } else if msg == WM_COMMAND {
        Message::Command
    } else if msg == WM_SIZE {
        Message::Size
    } else if msg == WM_CLOSE {
        Message::Close
    } else if msg == WM_DESTROY {
        Message::Destroy
    } else if msg == LVM_INSERTITEMW {
        Message::ItemInserted
    } else if msg == LVM_INSERTCOLUMNW {
        Message::ColumnInserted
    } else {
        Message::Unhandled
    }
}

/// What the window procedure does with a list view notification.
#[derive(Debug, Clone, Copy, PartialEq, Eq, Structural)]
pub enum Notification {
    /// The ANSI request for an item's display data: logged and answered 0.
    DisplayInfoAnsi,
    /// The wide request for an item's display data (see `display_info`).
    DisplayInfo,
    /// A hint of which items will be shown: answered 0.
    CacheHint,
    /// A request to find an item: logged and answered 0.
    FindItem,
    /// Anything else: left to the default window procedure.
    Unhandled,
}

/// Sorts a notification code into what the window procedure does with it.
pub fn classify_notification(code: u32) -> (kind: Notification)
    ensures
        code == LVN_GETDISPINFOA <==> kind == Notification::DisplayInfoAnsi,
        code == LVN_GETDISPINFOW <==> kind == Notification::DisplayInfo,
        code == LVN_ODCACHEHINT <==> kind == Notification::CacheHint,
        code == LVN_ODFINDITEMW <==> kind == Notification::FindItem,
        code == 4294967146 <==> kind == Notification::DisplayInfoAnsi,
        code == 4294967119 <==> kind == Notification::DisplayInfo,
        code == 4294967183 <==> kind == Notification::CacheHint,
        code == 4294967117 <==> kind == Notification::FindItem,
        kind == Notification::Unhandled <==> !(code == 4294967146 || code == 4294967119 || code
            == 4294967183 || code == 4294967117),
{
    if code == LVN_GETDISPINFOA {
        Notification::DisplayInfoAnsi
    } else if code == LVN_GETDISPINFOW {
        Notification::DisplayInfo
    } else if code == LVN_ODCACHEHINT {
        Notification::CacheHint
    } else if code == LVN_ODFINDITEMW {
        Notification::FindItem
    } else {
        Notification::Unhandled
    }
}

/// The answer to a request for an item's display data.
#[derive(Debug, Clone, Copy, PartialEq, Eq, Structural)]
pub enum DisplayReply {
    /// The item index is negative: logged and answered 0.
    NegativeIndex,
    /// The index is not below the row count less one: logged, answered 0.
    OutOfRange,
    /// The column is none of the three: logged and answered 0.
    UnknownColumn,
    /// Show the name of the row at this index, answered 0.
    ShowName(usize),
    /// No text was asked for: left to the default window procedure.
    PassOn,
}

/// What to do with a request for an item's display data.
#[derive(Debug, Clone, Copy, PartialEq, Eq, Structural)]
pub struct DisplayInfo {
    /// Set the item's state to 0.
    pub clear_state: bool,
    /// Set the item's image to -1.
    pub clear_image: bool,
    pub reply: DisplayReply,
}

/// The answer that the window procedure gives to a request for the display
/// data of `item`, column `sub_item`, with `mask` the request's flags and
/// `rows` the number of rows held. The request counts as one for text where
/// `mask` lacks `LVIF_TEXT`, and every column shows the row's name.
pub open spec fn display_decision(item: i32, mask: u32, sub_item: i32, rows: usize) -> DisplayInfo {
    if item < 0 {
        DisplayInfo { clear_state: false, clear_image: false, reply: DisplayReply::NegativeIndex }
    } else {
        DisplayInfo {
            clear_state: mask & LVIF_STATE == 0,
            clear_image: mask & LVIF_IMAGE == 0,
            reply: if mask & LVIF_TEXT != 0 {
                DisplayReply::PassOn
            } else if item >= rows - 1 {
                DisplayReply::OutOfRange
            } else if 0 <= sub_item <= 2 {
                DisplayReply::ShowName(item as usize)
            } else {
                DisplayReply::UnknownColumn
            },
        }
    }
}

/// Decides the answer to a request for an item's display data.
pub fn display_info(item: i32, mask: u32, sub_item: i32, rows: usize) -> (info: DisplayInfo)
    requires
        item < 0 || mask & LVIF_TEXT != 0 || rows >= 1,
    ensures
        info == display_decision(item, mask, sub_item, rows),
        info.reply matches DisplayReply::ShowName(ix) ==> ix < rows,
{
    if item < 0 {
        return DisplayInfo { clear_state: false, clear_image: false, reply: DisplayReply::NegativeIndex };
    }
    let clear_state = mask & LVIF_STATE == 0;
    let clear_image = mask & LVIF_IMAGE == 0;
    let reply = if mask & LVIF_TEXT != 0 {
        DisplayReply::PassOn
    } else {
        let ix = item as usize;
        if ix >= rows - 1 {
            DisplayReply::OutOfRange
        } else if 0 <= sub_item && sub_item <= 2 {
            DisplayReply::ShowName(ix)
        } else {
            DisplayReply::UnknownColumn
        }
    };
    DisplayInfo { clear_state, clear_image, reply }
}

/// What the window procedure answers, and what it does first.
#[derive(Debug, Clone, Copy, PartialEq, Eq, Structural)]
pub enum Reply {
    /// Answer 0.
    Zero,
    /// Answer what `DefWindowProcW` answers for the message.
    Default,
    /// Destroy the window and answer what `DestroyWindow` returns.
    DestroyWindow,
    /// Post the quit message (`PostQuitMessage(0)`) and answer 0.
    QuitZero,
    /// Answer as the notification asks (see `notification_reply`).
    ByNotification,
    /// Answer as the command asks (see `command_reply`).
    ByCommand,
    /// Answer as the request for display data asks (see `display_reply`).
    ByDisplayInfo,
}

/// The answer to each kind of message: creating, resizing and destroying
/// answer 0, closing answers with the window's destruction, the insertion
/// messages and the rest go to the default window procedure.
pub open spec fn message_reply(kind: Message) -> Reply {
    match kind {
        Message::Create => Reply::Zero,
        Message::Notify => Reply::ByNotification,
        Message::Command => Reply::ByCommand,
        Message::Size => Reply::Zero,
        Message::Close => Reply::DestroyWindow,
        Message::Destroy => Reply::QuitZero,
        Message::ItemInserted => Reply::Default,
        Message::ColumnInserted => Reply::Default,
        Message::Unhandled => Reply::Default,
    }
}

/// The answer that the window procedure gives to a kind of message.
pub fn reply_for(kind: Message) -> (r: Reply)
    ensures
        r == message_reply(kind),
{
    match kind {
        Message::Create => Reply::Zero,
        Message::Notify => Reply::ByNotification,
        Message::Command => Reply::ByCommand,
        Message::Size => Reply::Zero,
        Message::Close => Reply::DestroyWindow,
        Message::Destroy => Reply::QuitZero,
        Message::ItemInserted => Reply::Default,
        Message::ColumnInserted => Reply::Default,
        Message::Unhandled => Reply::Default,
    }
}

/// The answer to a list view notification: the request for display data
/// is answered as `display_reply` says, unknown codes go to the default
/// window procedure, and the rest answer 0.
pub fn notification_reply(kind: Notification) -> (r: Reply)
    ensures
        r == match kind {
            Notification::DisplayInfoAnsi => Reply::Zero,
            Notification::DisplayInfo => Reply::ByDisplayInfo,
            Notification::CacheHint => Reply::Zero,
            Notification::FindItem => Reply::Zero,
            Notification::Unhandled => Reply::Default,
        },
{
    match kind {
        Notification::DisplayInfoAnsi => Reply::Zero,
        Notification::DisplayInfo => Reply::ByDisplayInfo,
        Notification::CacheHint => Reply::Zero,
        Notification::FindItem => Reply::Zero,
        Notification::Unhandled => Reply::Default,
    }
}

/// The answer to a request for display data: passed on to the default
/// window procedure where no text was asked for, 0 otherwise.
pub fn display_reply(reply: DisplayReply) -> (r: Reply)
    ensures
        r == (if reply is PassOn { Reply::Default } else { Reply::Zero }),
{
    match reply {
        DisplayReply::PassOn => Reply::Default,
        _ => Reply::Zero,
    }
}

/// The answer to a `WM_COMMAND`: 0 once the edit box's text is read, the
/// default window procedure's answer for any other control.
pub fn command_reply(from_edit: bool) -> (r: Reply)
    ensures
        r == (if from_edit { Reply::Zero } else { Reply::Default }),
{
    if from_edit {
        Reply::Zero
    } else {
        Reply::Default
    }
}

/// The low 16 bits of a message parameter (`LOWORD`).
pub open spec fn low_word(v: u32) -> u16 {
    (v % 0x10000) as u16
}

/// The high 16 bits of a message parameter (`HIWORD`).
pub open spec fn high_word(v: u32) -> u16 {
    (v / 0x10000) as u16
}

/// Where the list view goes in a client area of a given size.
#[derive(Debug, Clone, Copy, PartialEq, Eq, Structural)]
pub struct Bounds {
    pub x: i32,
    pub y: i32,
    pub width: i32,
    pub height: i32,
}

/// The place of the list view when the window's client area gets the size
/// that a `WM_SIZE` message carries: full width, below the edit strip.
pub fn on_size_bounds(l_param: isize) -> (b: Bounds)
    ensures
        b.x == 0,
        b.y == EDIT_STRIP_HEIGHT,
        b.width == low_word(l_param as u32),
        b.height == high_word(l_param as u32) - EDIT_STRIP_HEIGHT,
        b.y == 30,
        b.width == (l_param as u32) % 65536,
        b.height == (l_param as u32) / 65536 - 30,
{
    let v = l_param as u32;
    let cx = (v % 0x10000) as u16;
    let cy = (v / 0x10000) as u16;
    Bounds { x: 0, y: EDIT_STRIP_HEIGHT, width: cx as i32, height: cy as i32 - EDIT_STRIP_HEIGHT }
}

/// Whether a `WM_COMMAND` comes from the edit box.
pub fn is_edit_command(w_param: usize) -> (from_edit: bool)
    ensures
        from_edit == (low_word(w_param as u32) == IDC_MAIN_EDIT),
        from_edit == ((w_param as u32) % 65536 == 100),
{
    let v = w_param as u32;
    (v % 0x10000) as u16 == IDC_MAIN_EDIT
}

/// The buffer into which the edit box's text is read: the wide form of the
/// empty string followed by `EDIT_BUFFER_EXTRA` NULs.
pub fn edit_text_buffer() -> (buffer: Vec<u16>)
    ensures
        buffer@.len() == 2 + EDIT_BUFFER_EXTRA,
        buffer@.len() == 258,
        forall|i: int| 0 <= i < buffer@.len() ==> buffer@[i] == 0,
{
    let mut buffer = to_wstring("");
    proof {
        reveal_strlit("");
    }
    assert(buffer@ =~= seq![0u16, 0u16]);
    let mut k: usize = 0;
    while k < EDIT_BUFFER_EXTRA
        invariant
            k <= EDIT_BUFFER_EXTRA,
            buffer@.len() == 2 + k,
            forall|i: int| 0 <= i < buffer@.len() ==> buffer@[i] == 0,
        decreases EDIT_BUFFER_EXTRA - k,
    {
        buffer.push(0);
        k = k + 1;
    }
    buffer
}

/// Whether the message loop goes on after `GetMessageW` returned `got`: it
/// stops on 0 (`WM_QUIT`) and on -1 (an error).
pub fn keep_pumping(got: i32) -> (go_on: bool)
    ensures
        go_on == (got > 0),
{
    got > 0
}

/// One column of the list view: its title and the item field it shows.
#[derive(Debug)]
pub struct Column {
    pub title: String,
    pub sub_item: i32,
}

/// The columns, in the order in which they are inserted: Size, Path, Name.
pub fn list_columns() -> (columns: Vec<Column>)
    ensures
        columns@.len() == 3,
        columns@[0].title@ == seq!['S', 'i', 'z', 'e'] && columns@[0].sub_item == 2,
        columns@[1].title@ == seq!['P', 'a', 't', 'h'] && columns@[1].sub_item == 1,
        columns@[2].title@ == seq!['N', 'a', 'm', 'e'] && columns@[2].sub_item == 0,
{
    let mut columns: Vec<Column> = Vec::new();
    columns.push(Column { title: "Size".to_owned(), sub_item: 2 });
    columns.push(Column { title: "Path".to_owned(), sub_item: 1 });
    columns.push(Column { title: "Name".to_owned(), sub_item: 0 });
    proof {
        reveal_strlit("Size");
        reveal_strlit("Path");
        reveal_strlit("Name");
    }
    columns
}

/// The item count announced to the list view for `rows` rows: one less.
pub fn list_item_count(rows: usize) -> (count: u64)
    requires
        rows >= 1,
    ensures
        count == rows - 1,
{
    (rows - 1) as u64
}

/// The size of a client rectangle.
pub fn client_extent(left: i32, top: i32, right: i32, bottom: i32) -> (extent: (i32, i32))
    requires
        i32::MIN <= right - left <= i32::MAX,
        i32::MIN <= bottom - top <= i32::MAX,
    ensures
        extent.0 == right - left,
        extent.1 == bottom - top,
{
    (right - left, bottom - top)
}

/// The texts of one row that the list view may show: its name, its path
/// and its size for people to read.
pub open spec fn is_row_text(row: DirEntry, t: Seq<char>) -> bool {
    ||| row.name@ == t
    ||| row.path@ == t
    ||| pretty_size_text(capped_total(row.files@)) == t
}

/// The names, paths and size texts of the rows.
pub open spec fn row_texts(rows: Seq<DirEntry>) -> Set<Seq<char>> {
    Set::new(|t: Seq<char>| exists|i: int| 0 <= i < rows.len() && #[trigger] is_row_text(rows[i], t))
}

/// Adds the name, the path and the size text of every row to the cache.
pub fn cache_row_texts(cache: &mut WideCache, rows: &Vec<DirEntry>)
    ensures
        final(cache).view().dom() == old(cache).view().dom() + row_texts(rows@),
        forall|t: Seq<char>| #[trigger] final(cache).view().dom().contains(t) ==> final(cache).view()[t] == wide_of(t),
{
    let mut i: usize = 0;
    while i < rows.len()
        invariant
            i <= rows@.len(),
            cache.view().dom() == old(cache).view().dom() + row_texts(rows@.take(i as int)),
            forall|t: Seq<char>| #[trigger] cache.view().dom().contains(t) ==> cache.view()[t] == wide_of(t),
        decreases rows@.len() - i,
    {
        cache.insert(rows[i].name.as_str());
        cache.insert(rows[i].path.as_str());
        let size_text = pretty_size(rows[i].size());
        cache.insert(size_text.as_str());
        proof {
            let before = row_texts(rows@.take(i as int));
            let after = row_texts(rows@.take(i + 1));
            assert forall|t: Seq<char>| after.contains(t) <==> (before.contains(t) || is_row_text(rows@[i as int], t)) by {
                if after.contains(t) {
                    let k = choose|k: int| 0 <= k < i + 1 && #[trigger] is_row_text(rows@.take(i + 1)[k], t);
                    assert(rows@.take(i + 1)[k] == rows@[k]);
                    if k < i {
                        assert(rows@.take(i as int)[k] == rows@[k]);
                    }
                }
                if before.contains(t) {
                    let k = choose|k: int| 0 <= k < i && #[trigger] is_row_text(rows@.take(i as int)[k], t);
                    assert(rows@.take(i as int)[k] == rows@[k]);
                    assert(rows@.take(i + 1)[k] == rows@[k]);
                    assert(is_row_text(rows@.take(i + 1)[k], t));
                }
                if is_row_text(rows@[i as int], t) {
                    assert(rows@.take(i + 1)[i as int] == rows@[i as int]);
                    assert(is_row_text(rows@.take(i + 1)[i as int], t));
                }
            }
            assert(cache.view().dom() =~= old(cache).view().dom() + after);
        }
        i = i + 1;
    }
    assert(rows@.take(i as int) =~= rows@);
}


/// Once the texts of the rows are cached, the name that a display request
/// is answered with is in the cache, under its wide form.
pub proof fn law_shown_name_is_cached(
    cache: WideCache,
    rows: Seq<DirEntry>,
    item: i32,
    mask: u32,
    sub_item: i32,
)
    requires
        rows.len() <= usize::MAX,
        row_texts(rows).subset_of(cache.view().dom()),
    ensures
        display_decision(item, mask, sub_item, rows.len() as usize).reply matches DisplayReply::ShowName(ix)
            ==> {
            &&& ix < rows.len()
            &&& cache.view().dom().contains(rows[ix as int].name@)
            &&& cache.view()[rows[ix as int].name@] == wide_of(rows[ix as int].name@)
        },
{
    if let DisplayReply::ShowName(ix) = display_decision(item, mask, sub_item, rows.len() as usize).reply {
        assert(is_row_text(rows[ix as int], rows[ix as int].name@));
        assert(row_texts(rows).contains(rows[ix as int].name@));
    }
}


/// Each handled message number has its own kind, and every other number is
/// left unhandled.
pub proof fn law_message_numbers(msg: u32)
    ensures
        message_kind(msg) == Message::Create <==> msg == 0x0001,
        message_kind(msg) == Message::Destroy <==> msg == 0x0002,
        message_kind(msg) == Message::Size <==> msg == 0x0005,
        message_kind(msg) == Message::Close <==> msg == 0x0010,
        message_kind(msg) == Message::Notify <==> msg == 0x004E,
        message_kind(msg) == Message::Command <==> msg == 0x0111,
        message_kind(msg) == Message::ItemInserted <==> msg == 4173,
        message_kind(msg) == Message::ColumnInserted <==> msg == 4193,
        message_kind(msg) == Message::Unhandled <==> !(msg == 0x0001 || msg == 0x0002 || msg
            == 0x0005 || msg == 0x0010 || msg == 0x004E || msg == 0x0111 || msg == 4173 || msg
            == 4193),
{
}

/// A request for display data with a negative item is refused before
/// anything else; otherwise the state is reset where `LVIF_STATE` (8) is
/// clear, the image where `LVIF_IMAGE` (2) is clear, and where `LVIF_TEXT`
/// (1) is set the request goes on to the default window procedure; where it
/// is clear, the row's name is shown for columns 0 to 2 of every row but
/// the last.
pub proof fn law_display_info_bits(item: i32, mask: u32, sub_item: i32, rows: usize)
    ensures
        item < 0 ==> display_decision(item, mask, sub_item, rows) == (DisplayInfo {
            clear_state: false,
            clear_image: false,
            reply: DisplayReply::NegativeIndex,
        }),
        item >= 0 ==> (display_decision(item, mask, sub_item, rows).clear_state <==> mask & 8 == 0),
        item >= 0 ==> (display_decision(item, mask, sub_item, rows).clear_image <==> mask & 2 == 0),
        item >= 0 && mask & 1 != 0 ==> display_decision(item, mask, sub_item, rows).reply
            == DisplayReply::PassOn,
        item >= 0 && mask & 1 == 0 && item + 1 >= rows ==> display_decision(
            item,
            mask,
            sub_item,
            rows,
        ).reply == DisplayReply::OutOfRange,
        item >= 0 && mask & 1 == 0 && item + 1 < rows && 0 <= sub_item <= 2 ==> display_decision(
            item,
            mask,
            sub_item,
            rows,
        ).reply == DisplayReply::ShowName(item as usize),
        item >= 0 && mask & 1 == 0 && item + 1 < rows && !(0 <= sub_item <= 2) ==> display_decision(
            item,
            mask,
            sub_item,
            rows,
        ).reply == DisplayReply::UnknownColumn,
        display_decision(item, mask, sub_item, rows).reply matches DisplayReply::ShowName(ix) ==> ix
            == item && mask & 1 == 0 && ix + 1 < rows,
{
}

/// The texts cached for the rows are exactly, for each row, its name, its
/// path, and the readable form of its total size: the sum of the sizes of
/// all its files, held at `u64::MAX`.
pub proof fn law_row_texts(rows: Seq<DirEntry>, t: Seq<char>, i: int)
    ensures
        row_texts(rows).contains(t) <==> exists|k: int|
            0 <= k < rows.len() && (#[trigger] rows[k].name@ == t || rows[k].path@ == t || t
                == pretty_size_text(capped_total(rows[k].files@))),
        0 <= i < rows.len() ==> row_texts(rows).contains(rows[i].name@),
        0 <= i < rows.len() ==> row_texts(rows).contains(rows[i].path@),
        0 <= i < rows.len() ==> row_texts(rows).contains(
            pretty_size_text(capped_total(rows[i].files@)),
        ),
{
    if row_texts(rows).contains(t) {
        let k = choose|k: int| 0 <= k < rows.len() && #[trigger] is_row_text(rows[k], t);
        assert(rows[k].name@ == t || rows[k].path@ == t || t == pretty_size_text(
            capped_total(rows[k].files@),
        ));
    }
    assert forall|k: int|
        0 <= k < rows.len() && (#[trigger] rows[k].name@ == t || rows[k].path@ == t || t
            == pretty_size_text(capped_total(rows[k].files@))) implies row_texts(rows).contains(t) by {
        assert(is_row_text(rows[k], t));
    }
    if 0 <= i < rows.len() {
        assert(is_row_text(rows[i], rows[i].name@));
        assert(is_row_text(rows[i], rows[i].path@));
        assert(is_row_text(rows[i], pretty_size_text(capped_total(rows[i].files@))));
    }
}


/// What each message number is answered with: creating and resizing answer
/// 0, closing destroys the window, destroying posts the quit message,
/// notifications and commands are answered as they ask, and every other
/// number, the two insertion messages among them, goes to the default
/// window procedure.
pub proof fn law_message_replies(msg: u32)
    ensures
        message_reply(message_kind(msg)) == Reply::Zero <==> (msg == 0x0001 || msg == 0x0005),
        message_reply(message_kind(msg)) == Reply::DestroyWindow <==> msg == 0x0010,
        message_reply(message_kind(msg)) == Reply::QuitZero <==> msg == 0x0002,
        message_reply(message_kind(msg)) == Reply::ByNotification <==> msg == 0x004E,
        message_reply(message_kind(msg)) == Reply::ByCommand <==> msg == 0x0111,
        message_reply(message_kind(msg)) == Reply::Default <==> !(msg == 0x0001 || msg == 0x0002
            || msg == 0x0005 || msg == 0x0010 || msg == 0x004E || msg == 0x0111),
        message_reply(message_kind(msg)) != Reply::ByDisplayInfo,
{
}

/// `low_word` and `high_word` take a parameter apart into the two halves
/// that it was built from.
pub proof fn law_words(high: u16, low: u16)
    ensures
        low_word((high * 65536 + low) as u32) == low,
        high_word((high * 65536 + low) as u32) == high,
{
    let v = (high * 65536 + low) as u32;
    assert(0 <= high * 65536 + low < 0x1_0000_0000) by (nonlinear_arith)
        requires
            0 <= low < 65536,
            0 <= high < 65536,
    ;
    assert(v % 65536 == low && v / 65536 == high) by (nonlinear_arith)
        requires
            v == high * 65536 + low,
            0 <= low < 65536,
            0 <= high < 65536,
    ;
}

} // verus!
