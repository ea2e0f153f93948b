use filelens::cache::WideCache;
use filelens::lens::DirEntry;
use filelens::wide::{to_string, to_wstring};
use filelens::window::{
    cache_row_texts, classify_message, classify_notification, client_extent, display_info,
    edit_text_buffer, is_edit_command, keep_pumping, list_columns, list_item_count, on_size_bounds,
    Bounds, DisplayInfo, DisplayReply, Message, Notification,
};
use filelens::window::{command_reply, display_reply, notification_reply, reply_for, Reply};
use filelens::lens::FileEntry;

#[test]
fn messages_are_classified() {
    assert_eq!(classify_message(0x0001), Message::Create);
    assert_eq!(classify_message(0x004E), Message::Notify);
    assert_eq!(classify_message(0x0111), Message::Command);
    assert_eq!(classify_message(0x0005), Message::Size);
    assert_eq!(classify_message(0x0010), Message::Close);
    assert_eq!(classify_message(0x0002), Message::Destroy);
    assert_eq!(classify_message(4173), Message::ItemInserted);
    assert_eq!(classify_message(4193), Message::ColumnInserted);
    assert_eq!(classify_message(0x000F), Message::Unhandled);
}

#[test]
fn notifications_are_classified() {
    let first = (-100i32) as u32;
    assert_eq!(classify_notification(first - 50), Notification::DisplayInfoAnsi);
    assert_eq!(classify_notification(first - 77), Notification::DisplayInfo);
    assert_eq!(classify_notification(first - 13), Notification::CacheHint);
    assert_eq!(classify_notification(first - 79), Notification::FindItem);
    assert_eq!(classify_notification(first - 1), Notification::Unhandled);
}

#[test]
fn display_info_negative_index() {
    assert_eq!(
        display_info(-1, 0, 0, 10),
        DisplayInfo { clear_state: false, clear_image: false, reply: DisplayReply::NegativeIndex }
    );
}

#[test]
fn display_info_shows_name_when_text_flag_absent() {
    assert_eq!(
        display_info(3, 0, 1, 10),
        DisplayInfo { clear_state: true, clear_image: true, reply: DisplayReply::ShowName(3) }
    );
    assert_eq!(display_info(3, 0x8 | 0x2, 2, 10).reply, DisplayReply::ShowName(3));
    assert!(!display_info(3, 0x8 | 0x2, 2, 10).clear_state);
    assert!(!display_info(3, 0x8 | 0x2, 2, 10).clear_image);
}

#[test]
fn display_info_last_row_is_out_of_range() {
    assert_eq!(display_info(9, 0, 0, 10).reply, DisplayReply::OutOfRange);
    assert_eq!(display_info(8, 0, 0, 10).reply, DisplayReply::ShowName(8));
    assert_eq!(display_info(0, 0, 0, 1).reply, DisplayReply::OutOfRange);
}

#[test]
fn display_info_unknown_column() {
    assert_eq!(display_info(1, 0, 3, 10).reply, DisplayReply::UnknownColumn);
    assert_eq!(display_info(1, 0, -1, 10).reply, DisplayReply::UnknownColumn);
}

#[test]
fn display_info_text_flag_passes_on() {
    let info = display_info(1, 0x1, 0, 0);
    assert_eq!(info.reply, DisplayReply::PassOn);
    assert!(info.clear_state && info.clear_image);
}

#[test]
fn size_message_places_list_below_edit() {
    let l_param: isize = (600 << 16) | 800;
    assert_eq!(on_size_bounds(l_param), Bounds { x: 0, y: 30, width: 800, height: 570 });
    assert_eq!(on_size_bounds(0), Bounds { x: 0, y: 30, width: 0, height: -30 });
}

#[test]
fn edit_command_uses_low_word() {
    assert!(is_edit_command(100));
    assert!(is_edit_command((0x0300 << 16) | 100));
    assert!(!is_edit_command(101));
    assert!(!is_edit_command(100 << 16));
}

#[test]
fn edit_buffer_is_all_nul() {
    let b = edit_text_buffer();
    assert_eq!(b.len(), 258);
    assert!(b.iter().all(|u| *u == 0));
    assert_eq!(to_string(&b), "");
}

#[test]
fn message_loop_stops_on_quit_and_error() {
    assert!(keep_pumping(1));
    assert!(!keep_pumping(0));
    assert!(!keep_pumping(-1));
}

#[test]
fn columns_in_insertion_order() {
    let cols = list_columns();
    let got: Vec<(String, i32)> = cols.iter().map(|c| (c.title.clone(), c.sub_item)).collect();
    assert_eq!(
        got,
        vec![("Size".to_string(), 2), ("Path".to_string(), 1), ("Name".to_string(), 0)]
    );
}

#[test]
fn item_count_is_one_less() {
    assert_eq!(list_item_count(10000), 9999);
    assert_eq!(list_item_count(1), 0);
}

#[test]
fn client_extent_is_difference() {
    assert_eq!(client_extent(10, 20, 410, 320), (400, 300));
}

#[test]
fn cache_get_after_insert() {
    let mut cache = WideCache::new();
    assert_eq!(cache.len(), 0);
    assert!(cache.get("Name: 1").is_none());
    cache.insert("Name: 1");
    assert_eq!(cache.get("Name: 1"), Some(&to_wstring("Name: 1")));
    assert!(cache.get("Name: 2").is_none());
    cache.insert("Name: 1");
    assert_eq!(cache.len(), 1);
    cache.insert("Alpha");
    cache.insert("Zulu");
    assert_eq!(cache.len(), 3);
    assert_eq!(cache.get("Alpha"), Some(&to_wstring("Alpha")));
    assert_eq!(cache.get("Zulu"), Some(&to_wstring("Zulu")));
    assert_eq!(to_string(cache.get("Zulu").unwrap()), "Zulu");
}

#[test]
fn cache_row_texts_holds_names_and_paths() {
    let rows = vec![
        DirEntry { name: "a".to_string(), path: "C:\\a".to_string(), files: Vec::new() },
        DirEntry { name: "b".to_string(), path: "C:\\b".to_string(), files: Vec::new() },
    ];
    let mut cache = WideCache::new();
    cache_row_texts(&mut cache, &rows);
    assert_eq!(cache.len(), 5);
    for key in ["a", "b", "C:\\a", "C:\\b", "0b"] {
        assert_eq!(cache.get(key), Some(&to_wstring(key)));
    }
    assert!(cache.get("c").is_none());
}

#[test]
fn shown_name_is_found_in_cache() {
    let rows = filelens::listing::get_all_data();
    let mut cache = WideCache::new();
    cache_row_texts(&mut cache, &rows);
    // every sample row has no files, so all share the size text "0b"
    assert_eq!(cache.len(), 2 * rows.len() + 1);
    for (item, sub_item) in [(0, 0), (17, 1), (9998, 2)] {
        match display_info(item, 0, sub_item, rows.len()).reply {
            DisplayReply::ShowName(ix) => {
                let name = &rows[ix].name;
                assert_eq!(cache.get(name), Some(&to_wstring(name)));
                assert_eq!(to_string(cache.get(name).unwrap()), *name);
            }
            other => panic!("unexpected reply {:?}", other),
        }
    }
}

#[test]
fn cache_row_texts_holds_size_texts() {
    let rows = vec![
        DirEntry {
            name: "d".to_string(),
            path: "C:\\d".to_string(),
            files: vec![
                FileEntry { name: "x".to_string(), path: "C:\\d\\x".to_string(), size: 3 * 1048576 },
                FileEntry { name: "y".to_string(), path: "C:\\d\\y".to_string(), size: 1000 },
            ],
        },
        DirEntry { name: "f".to_string(), path: "C:\\f".to_string(), files: Vec::new() },
    ];
    let mut cache = WideCache::new();
    cache_row_texts(&mut cache, &rows);
    assert_eq!(cache.get("3mb"), Some(&to_wstring("3mb")));
    assert_eq!(cache.get("0b"), Some(&to_wstring("0b")));
    assert!(cache.get("x").is_none());
    assert_eq!(cache.len(), 6);
}

#[test]
fn replies_for_messages() {
    assert_eq!(reply_for(Message::Create), Reply::Zero);
    assert_eq!(reply_for(Message::Notify), Reply::ByNotification);
    assert_eq!(reply_for(Message::Command), Reply::ByCommand);
    assert_eq!(reply_for(Message::Size), Reply::Zero);
    assert_eq!(reply_for(Message::Close), Reply::DestroyWindow);
    assert_eq!(reply_for(Message::Destroy), Reply::QuitZero);
    assert_eq!(reply_for(Message::ItemInserted), Reply::Default);
    assert_eq!(reply_for(Message::ColumnInserted), Reply::Default);
    assert_eq!(reply_for(Message::Unhandled), Reply::Default);
}

#[test]
fn replies_for_notifications_commands_and_display() {
    assert_eq!(notification_reply(Notification::DisplayInfoAnsi), Reply::Zero);
    assert_eq!(notification_reply(Notification::DisplayInfo), Reply::ByDisplayInfo);
    assert_eq!(notification_reply(Notification::CacheHint), Reply::Zero);
    assert_eq!(notification_reply(Notification::FindItem), Reply::Zero);
    assert_eq!(notification_reply(Notification::Unhandled), Reply::Default);
    assert_eq!(command_reply(true), Reply::Zero);
    assert_eq!(command_reply(false), Reply::Default);
    assert_eq!(display_reply(DisplayReply::PassOn), Reply::Default);
    assert_eq!(display_reply(DisplayReply::ShowName(2)), Reply::Zero);
    assert_eq!(display_reply(DisplayReply::OutOfRange), Reply::Zero);
}
