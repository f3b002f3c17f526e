use wicrs_server::channel::{messages_after, Message};
use wicrs_server::error::{Error, IndexError};
use wicrs_server::message_server::{IndexState, MessageIndex};

fn message(n: u128, content: &str) -> Message {
    Message { id: 1000 + n, sender: 7, created: 1_600_000_000_000 + n, content: content.to_string() }
}

fn numbered(n: u128) -> Message {
    message(n, &format!("text word{} shared", n))
}

#[test]
fn threshold_commit_after_eleven_messages() {
    let dir = tempfile::tempdir().unwrap();
    let mut index = MessageIndex::open(dir.path().to_str().unwrap(), 10, None).unwrap();
    assert_eq!(index.pending_count(), 0);
    assert_eq!(index.recovery_log(), None);
    for n in 1..=10u128 {
        index.add(&numbered(n)).unwrap();
        assert_eq!(index.pending_count(), n as u8);
        assert_eq!(index.recovery_log(), Some(1001));
    }
    index.add(&numbered(11)).unwrap();
    assert_eq!(index.pending_count(), 0);
    assert_eq!(index.recovery_log(), Some(1011));
    assert_eq!(
        index.get_state(),
        IndexState { pending_count: 0, last_pending_id: Some(1011), recovery_log: Some(1011) }
    );
    assert_eq!(index.search("word1", 10).unwrap(), vec![1001]);
}

#[test]
fn replay_after_kill_restores_messages() {
    let dir = tempfile::tempdir().unwrap();
    let path = dir.path().to_str().unwrap().to_string();
    {
        let mut index = MessageIndex::open(&path, 10, None).unwrap();
        for n in 1..=15u128 {
            index.add(&numbered(n)).unwrap();
        }
        assert_eq!(index.recovery_log(), Some(1011));
        assert_eq!(index.pending_count(), 4);
    }
    let mut index = MessageIndex::open(&path, 10, Some(1011)).unwrap();
    assert_eq!(index.search("word13", 10).unwrap(), Vec::<u128>::new());
    assert_eq!(index.search("word3", 10).unwrap(), vec![1003]);
    let missed: Vec<Message> = (12..=15u128).map(numbered).collect();
    index.replay(&missed).unwrap();
    assert_eq!(index.recovery_log(), Some(1015));
    assert_eq!(index.pending_count(), 0);
    assert_eq!(index.search("word13", 10).unwrap(), vec![1013]);
    let mut all = index.search("shared", 100).unwrap();
    all.sort();
    assert_eq!(all, (1001..=1015u128).collect::<Vec<u128>>());
}

#[test]
fn replay_twice_keeps_one_document_per_message() {
    let dir = tempfile::tempdir().unwrap();
    let mut index = MessageIndex::open(dir.path().to_str().unwrap(), 10, None).unwrap();
    let messages: Vec<Message> = (1..=3u128).map(numbered).collect();
    index.replay(&messages).unwrap();
    index.replay(&messages).unwrap();
    let mut all = index.search("shared", 100).unwrap();
    all.sort();
    assert_eq!(all, vec![1001, 1002, 1003]);
    assert_eq!(index.recovery_log(), Some(1003));
}

#[test]
fn replay_of_nothing_keeps_the_log() {
    let dir = tempfile::tempdir().unwrap();
    let mut index = MessageIndex::open(dir.path().to_str().unwrap(), 10, Some(5)).unwrap();
    index.replay(&Vec::new()).unwrap();
    assert_eq!(index.recovery_log(), Some(5));
    assert_eq!(index.pending_count(), 0);
}

#[test]
fn search_commits_what_is_pending() {
    let dir = tempfile::tempdir().unwrap();
    let mut index = MessageIndex::open(dir.path().to_str().unwrap(), 10, None).unwrap();
    index.add(&message(1, "hello there")).unwrap();
    index.add(&message(2, "general greeting")).unwrap();
    assert_eq!(index.pending_count(), 2);
    assert_eq!(index.recovery_log(), Some(1001));
    assert_eq!(index.search("greeting", 5).unwrap(), vec![1002]);
    assert_eq!(index.pending_count(), 0);
    assert_eq!(index.recovery_log(), Some(1002));
}

#[test]
fn search_rejects_empty_and_malformed_queries() {
    let dir = tempfile::tempdir().unwrap();
    let mut index = MessageIndex::open(dir.path().to_str().unwrap(), 10, None).unwrap();
    index.add(&message(1, "hello there")).unwrap();
    assert_eq!(index.search("", 5), Err(Error::Index(IndexError::ParseQuery)));
    assert_eq!(index.search("nofield:hello", 5), Err(Error::Index(IndexError::ParseQuery)));
    assert_eq!(index.search("\"hello", 5), Err(Error::Index(IndexError::ParseQuery)));
}

#[test]
fn search_respects_the_limit() {
    let dir = tempfile::tempdir().unwrap();
    let mut index = MessageIndex::open(dir.path().to_str().unwrap(), 3, None).unwrap();
    for n in 1..=6u128 {
        index.add(&numbered(n)).unwrap();
    }
    assert_eq!(index.search("shared", 0).unwrap(), Vec::<u128>::new());
    assert_eq!(index.search("shared", 4).unwrap().len(), 4);
    assert_eq!(index.search("shared", usize::MAX).unwrap().len(), 6);
    assert_eq!(index.search("SHARED AND word2", 4).unwrap(), vec![1002]);
    assert_eq!(index.search("\"word3 shared\"", 4).unwrap(), vec![1003]);
}

#[test]
fn threshold_zero_commits_every_message() {
    let dir = tempfile::tempdir().unwrap();
    let mut index = MessageIndex::open(dir.path().to_str().unwrap(), 0, None).unwrap();
    index.add(&numbered(1)).unwrap();
    assert_eq!(index.pending_count(), 0);
    assert_eq!(index.recovery_log(), Some(1001));
    index.add(&numbered(2)).unwrap();
    assert_eq!(index.pending_count(), 0);
    assert_eq!(index.recovery_log(), Some(1002));
}

#[test]
fn open_fails_without_a_directory() {
    let dir = tempfile::tempdir().unwrap();
    let missing = dir.path().join("missing");
    let opened = MessageIndex::open(missing.to_str().unwrap(), 10, None);
    assert_eq!(opened.err(), Some(Error::Data(wicrs_server::error::DataError::Directory)));
}

#[test]
fn large_identifiers_and_times_survive() {
    let dir = tempfile::tempdir().unwrap();
    let mut index = MessageIndex::open(dir.path().to_str().unwrap(), 10, None).unwrap();
    let big = Message { id: u128::MAX - 1, sender: u128::MAX, created: u128::MAX, content: "edge case".to_string() };
    index.add(&big).unwrap();
    assert_eq!(index.search("edge", 5).unwrap(), vec![u128::MAX - 1]);
}

#[test]
fn open_fails_on_an_index_of_another_kind() {
    let dir = tempfile::tempdir().unwrap();
    let mut builder = tantivy::schema::Schema::builder();
    builder.add_text_field("title", tantivy::schema::TEXT);
    tantivy::Index::create_in_dir(dir.path(), builder.build()).unwrap();
    let opened = MessageIndex::open(dir.path().to_str().unwrap(), 10, None);
    assert_eq!(opened.err(), Some(Error::Index(IndexError::OpenCreateIndex)));
}

#[test]
fn open_fails_while_another_writer_holds_the_index() {
    let dir = tempfile::tempdir().unwrap();
    let path = dir.path().to_str().unwrap();
    let first = MessageIndex::open(path, 10, None);
    assert!(first.is_ok());
    let second = MessageIndex::open(path, 10, None);
    assert_eq!(second.err(), Some(Error::Index(IndexError::CreateWriter)));
}

#[test]
fn default_threshold_is_ten() {
    assert_eq!(wicrs_server::message_server::DEFAULT_COMMIT_THRESHOLD, 10);
}

#[test]
fn stored_identifier_is_its_length_and_its_bytes_from_the_top() {
    let dir = tempfile::tempdir().unwrap();
    let path = dir.path().to_str().unwrap().to_string();
    let id: u128 = 0x0102_0304_0506_0708_090a_0b0c_0d0e_0f10;
    {
        let mut index = MessageIndex::open(&path, 10, None).unwrap();
        index.add(&Message { id, sender: 7, created: 5, content: "alpha".to_string() }).unwrap();
        index.flush().unwrap();
    }
    let index = tantivy::Index::open_in_dir(&path).unwrap();
    let field = index.schema().get_field("id").unwrap();
    let searcher = index.reader().unwrap().searcher();
    let document: tantivy::TantivyDocument =
        searcher.doc(tantivy::DocAddress::new(0, 0)).unwrap();
    let stored = document
        .get_first(field)
        .and_then(|value| tantivy::schema::Value::as_bytes(&value).map(|bytes| bytes.to_vec()))
        .unwrap();
    let mut expected = vec![16u8, 0, 0, 0, 0, 0, 0, 0];
    expected.extend_from_slice(&id.to_be_bytes());
    assert_eq!(stored, expected);
    assert_eq!(&stored[8..12], &[1u8, 2, 3, 4]);
}

#[test]
fn an_index_just_opened_is_not_broken() {
    let dir = tempfile::tempdir().unwrap();
    let mut index = MessageIndex::open(dir.path().to_str().unwrap(), 2, None).unwrap();
    assert!(!index.is_broken());
    for n in 1..=5u128 {
        index.add(&numbered(n)).unwrap();
    }
    index.flush().unwrap();
    assert!(!index.is_broken());
    assert_eq!(index.pending_count(), 0);
    assert_eq!(index.recovery_log(), Some(1005));
}

#[test]
fn messages_after_gives_what_follows_the_first_with_the_identifier() {
    let all: Vec<Message> = (1..=5u128).map(numbered).collect();
    assert_eq!(messages_after(&all, 1002), all[2..].to_vec());
    assert_eq!(messages_after(&all, 1001), all[1..].to_vec());
    assert_eq!(messages_after(&all, 1005), Vec::<Message>::new());
}

#[test]
fn messages_after_an_unknown_identifier_gives_all() {
    let all: Vec<Message> = (1..=5u128).map(numbered).collect();
    assert_eq!(messages_after(&all, 77), all);
    assert_eq!(messages_after(&Vec::new(), 77), Vec::<Message>::new());
}

#[test]
fn messages_after_an_identifier_held_twice_starts_behind_the_first() {
    let mut all: Vec<Message> = (1..=4u128).map(numbered).collect();
    all.push(message(2, "again"));
    all.push(numbered(6));
    assert_eq!(messages_after(&all, 1002), all[2..].to_vec());
}

#[test]
fn replay_of_messages_after_the_log_restores_the_channel() {
    let dir = tempfile::tempdir().unwrap();
    let path = dir.path().to_str().unwrap().to_string();
    let all: Vec<Message> = (1..=15u128).map(numbered).collect();
    let log = {
        let mut index = MessageIndex::open(&path, 10, None).unwrap();
        for sent in all.iter() {
            index.add(sent).unwrap();
        }
        index.recovery_log()
    };
    assert_eq!(log, Some(1011));
    let missed = messages_after(&all, log.unwrap());
    assert_eq!(missed, all[11..].to_vec());
    let mut index = MessageIndex::open(&path, 10, log).unwrap();
    index.replay(&missed).unwrap();
    assert_eq!(index.recovery_log(), Some(1015));
    assert_eq!(index.search("word13", 10).unwrap(), vec![1013]);
}

#[test]
fn find_sees_what_is_committed_and_commits_nothing() {
    let dir = tempfile::tempdir().unwrap();
    let mut index = MessageIndex::open(dir.path().to_str().unwrap(), 10, None).unwrap();
    index.add(&numbered(1)).unwrap();
    assert_eq!(index.find("word1", 10), Ok(vec![]));
    assert_eq!(index.pending_count(), 1);
    index.flush().unwrap();
    assert_eq!(index.find("word1", 10), Ok(vec![1001]));
    assert_eq!(index.find("word1", 0), Ok(vec![]));
    assert_eq!(index.find("", 10), Err(Error::Index(IndexError::ParseQuery)));
    assert_eq!(index.find("content:(", 10), Err(Error::Index(IndexError::ParseQuery)));
    index.add(&numbered(2)).unwrap();
    index.add(&numbered(3)).unwrap();
    assert_eq!(index.find("shared", 10), Ok(vec![1001]));
    let mut found = index.search("shared", 10).unwrap();
    found.sort();
    assert_eq!(found, vec![1001, 1002, 1003]);
    assert_eq!(index.find("shared", 2).unwrap().len(), 2);
}

#[test]
fn collected_identifiers_follow_the_addresses_up_to_the_limit() {
    let dir = tempfile::tempdir().unwrap();
    let path = dir.path().to_str().unwrap().to_string();
    let mut index = MessageIndex::open(&path, 10, None).unwrap();
    for n in 1..=3u128 {
        index.add(&numbered(n)).unwrap();
    }
    index.flush().unwrap();
    let opened = tantivy::Index::open_in_dir(&path).unwrap();
    let field = opened.schema().get_field("id").unwrap();
    let searcher = opened.reader().unwrap().searcher();
    let hits = searcher
        .search(&tantivy::query::AllQuery, &tantivy::collector::TopDocs::with_limit(10).order_by_score())
        .unwrap();
    let addresses: Vec<(u32, u32)> =
        hits.iter().map(|(_, at)| (at.segment_ord, at.doc_id)).collect();
    assert_eq!(addresses.len(), 3);
    let mut expected: Vec<u128> = Vec::new();
    for (_, at) in hits.iter() {
        let document: tantivy::TantivyDocument = searcher.doc(*at).unwrap();
        let stored = document
            .get_first(field)
            .and_then(|value| tantivy::schema::Value::as_bytes(&value).map(|bytes| bytes.to_vec()))
            .unwrap();
        let mut bytes = [0u8; 16];
        bytes.copy_from_slice(&stored[8..24]);
        expected.push(u128::from_be_bytes(bytes));
    }
    assert_eq!(index.collect_ids(&searcher, &addresses, 10), Ok(expected.clone()));
    assert_eq!(index.collect_ids(&searcher, &addresses, 3), Ok(expected.clone()));
    assert_eq!(index.collect_ids(&searcher, &addresses, 2), Ok(expected[..2].to_vec()));
    assert_eq!(index.collect_ids(&searcher, &addresses, 0), Ok(vec![]));
    let turned: Vec<(u32, u32)> = addresses.iter().rev().cloned().collect();
    let mut back = expected.clone();
    back.reverse();
    assert_eq!(index.collect_ids(&searcher, &turned, 10), Ok(back));
    assert_eq!(index.collect_ids(&searcher, &Vec::new(), 10), Ok(vec![]));
    let mut all = expected;
    all.sort();
    assert_eq!(all, vec![1001, 1002, 1003]);
}
