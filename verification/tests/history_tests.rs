use agent_comms::history::ConversationLogger;

fn drain(logger: &mut ConversationLogger) {
    while logger.pending_count() > 0 {
        logger.run_pending_write(0, true);
    }
}

fn named_metadata(name: &str) -> Option<String> {
    Some(format!("{{\"discord_channel_name\":\"{}\"}}", name))
}

#[test]
fn load_recent_is_ascending_and_limited() {
    let mut logger = ConversationLogger::new();
    logger.log_user_message("chan-a", "ann", "u1", "first", None);
    logger.log_user_message("chan-a", "bob", "u2", "second", None);
    logger.log_user_message("chan-b", "cid", "u3", "elsewhere", None);
    logger.log_user_message("chan-a", "ann", "u1", "third", None);
    drain(&mut logger);

    let recent = logger.load_recent("chan-a", 2);
    assert_eq!(recent.len(), 2);
    assert_eq!(recent[0].content, "second");
    assert_eq!(recent[1].content, "third");
    assert!(recent[0].created_at < recent[1].created_at);
    assert_eq!(recent[0].role, "user");
    assert_eq!(recent[0].sender_name.as_deref(), Some("bob"));
    assert_eq!(recent[0].sender_id.as_deref(), Some("u2"));
}

#[test]
fn load_recent_returns_everything_under_the_limit() {
    let mut logger = ConversationLogger::new();
    logger.log_user_message("chan-a", "ann", "u1", "first", None);
    logger.log_user_message("chan-a", "ann", "u1", "second", None);
    drain(&mut logger);

    let recent = logger.load_recent("chan-a", 50);
    assert_eq!(recent.len(), 2);
    assert_eq!(recent[0].content, "first");
    assert_eq!(recent[1].content, "second");
    assert!(logger.load_recent("chan-a", 0).is_empty());
    assert!(logger.load_recent("unknown", 50).is_empty());
}

#[test]
fn load_channel_transcript_matches_load_recent() {
    let mut logger = ConversationLogger::new();
    logger.log_user_message("chan-a", "ann", "u1", "first", None);
    logger.log_bot_message("chan-a", "reply");
    drain(&mut logger);

    let transcript = logger.load_channel_transcript("chan-a", 10);
    let recent = logger.load_recent("chan-a", 10);
    assert_eq!(transcript.len(), 2);
    assert_eq!(transcript.len(), recent.len());
    assert_eq!(transcript[0].content, recent[0].content);
    assert_eq!(transcript[1].content, recent[1].content);
}

#[test]
fn bot_messages_carry_no_sender() {
    let mut logger = ConversationLogger::new();
    logger.log_bot_message("chan-a", "hello from the assistant");
    drain(&mut logger);

    let recent = logger.load_recent("chan-a", 10);
    assert_eq!(recent.len(), 1);
    assert_eq!(recent[0].role, "assistant");
    assert_eq!(recent[0].sender_name, None);
    assert_eq!(recent[0].sender_id, None);
    assert_eq!(recent[0].metadata, None);
    assert_eq!(recent[0].content, "hello from the assistant");
}

#[test]
fn message_ids_are_uuid_sized() {
    let mut logger = ConversationLogger::new();
    logger.log_user_message("chan-a", "ann", "u1", "first", None);
    drain(&mut logger);

    let recent = logger.load_recent("chan-a", 10);
    assert_eq!(recent[0].id.len(), 36);
}

#[test]
fn compaction_summaries_come_back_in_creation_order() {
    let mut logger = ConversationLogger::new();
    logger.save_compaction_summary("chan-a", "early rollup", 12);
    logger.save_compaction_summary("chan-b", "other channel", 3);
    logger.save_compaction_summary("chan-a", "later rollup", 7);
    drain(&mut logger);

    let summaries = logger.load_compaction_summaries("chan-a");
    assert_eq!(summaries.len(), 2);
    assert_eq!(summaries[0].summary, "early rollup");
    assert_eq!(summaries[0].turns_covered, 12);
    assert_eq!(summaries[1].summary, "later rollup");
    assert_eq!(summaries[1].turns_covered, 7);
    assert!(summaries[0].created_at < summaries[1].created_at);
}

#[test]
fn write_failure_never_reaches_the_caller() {
    let mut logger = ConversationLogger::new();
    logger.log_user_message("chan-a", "ann", "u1", "lost to an outage", None);
    assert_eq!(logger.pending_count(), 1);
    logger.run_pending_write(0, false);
    assert_eq!(logger.pending_count(), 0);
    assert!(logger.load_recent("chan-a", 10).is_empty());
}

#[test]
fn summary_write_failure_is_dropped() {
    let mut logger = ConversationLogger::new();
    logger.save_compaction_summary("chan-a", "never lands", 4);
    logger.run_pending_write(0, false);
    assert!(logger.load_compaction_summaries("chan-a").is_empty());
}

#[test]
fn archives_do_not_disturb_messages() {
    let mut logger = ConversationLogger::new();
    logger.log_user_message("chan-a", "ann", "u1", "kept", None);
    logger.archive_transcript("chan-a", "[{\"content\":\"kept\"}]");
    drain(&mut logger);

    let recent = logger.load_recent("chan-a", 10);
    assert_eq!(recent.len(), 1);
    assert_eq!(recent[0].content, "kept");
}

#[test]
fn resolve_channel_name_reads_metadata() {
    let mut logger = ConversationLogger::new();
    logger.log_user_message("chan-a", "ann", "u1", "hi", named_metadata("general"));
    drain(&mut logger);

    assert_eq!(logger.resolve_channel_name("chan-a").as_deref(), Some("general"));
}

#[test]
fn resolve_channel_name_misses_without_the_key() {
    let mut logger = ConversationLogger::new();
    logger.log_user_message("chan-a", "ann", "u1", "hi", Some("{\"other\":\"x\"}".to_string()));
    drain(&mut logger);

    assert_eq!(logger.resolve_channel_name("chan-a"), None);
}

#[test]
fn resolve_channel_name_misses_on_invalid_metadata() {
    let mut logger = ConversationLogger::new();
    logger.log_user_message("chan-a", "ann", "u1", "hi", Some("not json".to_string()));
    drain(&mut logger);

    assert_eq!(logger.resolve_channel_name("chan-a"), None);
    assert_eq!(logger.resolve_channel_name("never-seen"), None);
}

#[test]
fn resolve_channel_name_prefers_the_newest_metadata() {
    let mut logger = ConversationLogger::new();
    logger.log_user_message("chan-a", "ann", "u1", "hi", named_metadata("old-name"));
    logger.log_user_message("chan-a", "ann", "u1", "again", named_metadata("new-name"));
    logger.log_user_message("chan-a", "ann", "u1", "bare", None);
    drain(&mut logger);

    assert_eq!(logger.resolve_channel_name("chan-a").as_deref(), Some("new-name"));
}

#[test]
fn list_channels_counts_and_orders_by_recency() {
    let mut logger = ConversationLogger::new();
    logger.log_user_message("chan-a", "ann", "u1", "one", named_metadata("alpha"));
    logger.log_user_message("chan-b", "bob", "u2", "two", named_metadata("beta"));
    logger.log_user_message("chan-a", "ann", "u1", "three", None);
    drain(&mut logger);

    let channels = logger.list_channels();
    assert_eq!(channels.len(), 2);
    assert_eq!(channels[0].channel_id, "chan-a");
    assert_eq!(channels[0].message_count, 2);
    assert_eq!(channels[0].channel_name.as_deref(), Some("alpha"));
    assert_eq!(channels[1].channel_id, "chan-b");
    assert_eq!(channels[1].message_count, 1);
    assert_eq!(channels[1].channel_name.as_deref(), Some("beta"));
    assert!(channels[0].last_activity > channels[1].last_activity);
}

#[test]
fn find_channel_by_name_cascades() {
    let mut logger = ConversationLogger::new();
    logger.log_user_message("chan-general", "ann", "u1", "a", named_metadata("general"));
    logger.log_user_message("chan-general2", "bob", "u2", "b", named_metadata("general-2"));
    logger.log_user_message("chan-off", "cid", "u3", "c", named_metadata("off-topic"));
    drain(&mut logger);

    // exact match beats the prefix match on "general-2"
    assert_eq!(logger.find_channel_by_name("general").as_deref(), Some("chan-general"));
    // no exact match: first prefix match in the directory, newest channel first
    assert_eq!(logger.find_channel_by_name("gen").as_deref(), Some("chan-general2"));
    // no exact or prefix match: falls through to a contains match
    assert_eq!(logger.find_channel_by_name("topic").as_deref(), Some("chan-off"));
}

#[test]
fn find_channel_by_name_is_case_insensitive() {
    let mut logger = ConversationLogger::new();
    logger.log_user_message("chan-a", "ann", "u1", "hi", named_metadata("General"));
    drain(&mut logger);

    assert_eq!(logger.find_channel_by_name("GENERAL").as_deref(), Some("chan-a"));
}

#[test]
fn find_channel_by_name_falls_back_to_the_raw_identifier() {
    let mut logger = ConversationLogger::new();
    logger.log_user_message("link:alpha:beta", "ann", "u1", "hi", None);
    drain(&mut logger);

    assert_eq!(logger.find_channel_by_name("alpha").as_deref(), Some("link:alpha:beta"));
    assert_eq!(logger.find_channel_by_name("zzz"), None);
}
