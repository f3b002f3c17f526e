use wicrs_server::channel::check_text_size;
use wicrs_server::error::{AuthError, DataError, Error, IndexError};
use wicrs_server::message_server::{
    effective_limit, parse_recovery_log, recovery_log_bytes, IndexState,
};
use wicrs_server::permission::{ChannelPermission, HubPermission};

#[test]
fn recovery_log_is_little_endian() {
    assert_eq!(recovery_log_bytes(1), vec![1, 0, 0, 0, 0, 0, 0, 0, 0, 0, 0, 0, 0, 0, 0, 0]);
    assert_eq!(
        recovery_log_bytes(0x0102030405060708090a0b0c0d0e0f10),
        vec![16, 15, 14, 13, 12, 11, 10, 9, 8, 7, 6, 5, 4, 3, 2, 1]
    );
    assert_eq!(parse_recovery_log(&[2, 1, 0, 0, 0, 0, 0, 0, 0, 0, 0, 0, 0, 0, 0, 0]), Some(258));
    assert_eq!(parse_recovery_log(&recovery_log_bytes(u128::MAX)), Some(u128::MAX));
    assert_eq!(parse_recovery_log(&[0; 15]), None);
    assert_eq!(parse_recovery_log(&[0; 17]), None);
    assert_eq!(parse_recovery_log(&[]), None);
}

#[test]
fn message_size_is_counted_in_bytes() {
    assert!(check_text_size(""));
    assert!(check_text_size(&"a".repeat(4096)));
    assert!(!check_text_size(&"a".repeat(4097)));
    assert!(check_text_size(&"é".repeat(2048)));
    assert!(!check_text_size(&"é".repeat(2049)));
}

#[test]
fn errors_map_to_status_codes() {
    assert_eq!(Error::NotAuthenticated.status_code(), 401);
    assert_eq!(Error::InvalidName.status_code(), 400);
    assert_eq!(Error::TooBig.status_code(), 400);
    assert_eq!(Error::InvalidText.status_code(), 400);
    assert_eq!(Error::Banned.status_code(), 403);
    assert_eq!(Error::Muted.status_code(), 403);
    assert_eq!(Error::MissingHubPermission(HubPermission::Kick).status_code(), 403);
    assert_eq!(Error::NotAMember.status_code(), 404);
    assert_eq!(Error::HubNotFound.status_code(), 404);
    assert_eq!(Error::AlreadyTyping.status_code(), 409);
    assert_eq!(Error::NotTyping.status_code(), 409);
    assert_eq!(Error::Internal.status_code(), 500);
    assert_eq!(Error::Data(DataError::ReadFile).status_code(), 500);
    assert_eq!(Error::Index(IndexError::Commit).status_code(), 500);
    assert_eq!(Error::Auth(AuthError::InvalidToken).status_code(), 401);
    assert_eq!(Error::Auth(AuthError::MalformedIDToken).status_code(), 400);
    assert_eq!(Error::Auth(AuthError::NoResponse).status_code(), 502);
    assert_eq!(AuthError::InvalidSession.status_code(), 502);
}

#[test]
fn errors_convert_from_their_kinds() {
    assert_eq!(Error::from(IndexError::Search), Error::Index(IndexError::Search));
    assert_eq!(Error::from(AuthError::BadJson), Error::Auth(AuthError::BadJson));
    assert_eq!(Error::from(DataError::Directory), Error::Data(DataError::Directory));
}

#[test]
fn bookkeeping_follows_the_threshold() {
    let mut state = IndexState { pending_count: 0, last_pending_id: None, recovery_log: None };
    for id in 1..=10u128 {
        assert!(!state.commit_due(10));
        state = state.after_add(10, id);
        assert_eq!(state.pending_count as u128, id);
        assert_eq!(state.recovery_log, Some(1));
        assert_eq!(state.last_pending_id, Some(id));
    }
    assert!(state.commit_due(10));
    state = state.after_add(10, 11);
    assert_eq!(state, IndexState { pending_count: 0, last_pending_id: Some(11), recovery_log: Some(11) });
    state = state.after_add(10, 12);
    assert_eq!(state, IndexState { pending_count: 1, last_pending_id: Some(12), recovery_log: Some(11) });
    assert_eq!(
        state.after_flush(),
        IndexState { pending_count: 0, last_pending_id: Some(12), recovery_log: Some(12) }
    );
    assert_eq!(state.after_flush().after_flush(), state.after_flush());
}

#[test]
fn search_limit_is_kept_within_bounds() {
    assert_eq!(effective_limit(0), 1);
    assert_eq!(effective_limit(1), 1);
    assert_eq!(effective_limit(100), 100);
    assert_eq!(effective_limit(1_000_000), 1_000_000);
    assert_eq!(effective_limit(1_000_001), 1_000_000);
    assert_eq!(effective_limit(usize::MAX), 1_000_000);
}

#[test]
fn errors_are_told_by_their_tags() {
    assert_eq!(Error::NotAuthenticated.wire_tag(), "NotAuthenticated");
    assert_eq!(Error::NotAMember.wire_tag(), "NotAMember");
    assert_eq!(Error::Banned.wire_tag(), "Banned");
    assert_eq!(Error::Muted.wire_tag(), "Muted");
    assert_eq!(Error::HubNotFound.wire_tag(), "HubNotFound");
    assert_eq!(Error::ChannelNotFound.wire_tag(), "ChannelNotFound");
    assert_eq!(
        Error::MissingHubPermission(HubPermission::ManageChannels).wire_tag(),
        "MissingHubPermission(ManageChannels)"
    );
    assert_eq!(
        Error::MissingChannelPermission(ChannelPermission::Write).wire_tag(),
        "MissingChannelPermission(Write)"
    );
    assert_eq!(Error::InvalidName.wire_tag(), "InvalidName");
    assert_eq!(Error::InvalidText.wire_tag(), "InvalidText");
    assert_eq!(Error::TooBig.wire_tag(), "TooBig");
    assert_eq!(Error::Index(IndexError::OpenCreateIndex).wire_tag(), "IndexError(open)");
    assert_eq!(Error::Index(IndexError::GetReader).wire_tag(), "IndexError(reader)");
    assert_eq!(Error::Index(IndexError::CreateWriter).wire_tag(), "IndexError(writer)");
    assert_eq!(Error::Index(IndexError::ParseQuery).wire_tag(), "IndexError(parse)");
    assert_eq!(Error::Index(IndexError::GetDoc).wire_tag(), "IndexError(get)");
    assert_eq!(Error::Data(DataError::ReadFile).wire_tag(), "DataError(read)");
    assert_eq!(Error::Data(DataError::DeleteFailed).wire_tag(), "DataError(delete)");
    assert_eq!(Error::Internal.wire_tag(), "Internal");
    assert_eq!(Error::UserNotFound.wire_tag(), "Internal");
    assert_eq!(Error::Auth(AuthError::BadJson).wire_tag(), "Internal");
    assert_eq!(HubPermission::All.name(), "All");
    assert_eq!(ChannelPermission::Read.name(), "Read");
    assert_eq!(IndexError::Reload.kind(), "reload");
    assert_eq!(DataError::Serialize.kind(), "serialize");
}
