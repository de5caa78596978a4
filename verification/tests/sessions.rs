use knot::cli::progress::{
    done_nodes, final_graph, progress_escape, progress_percent, remaining_nodes,
};
use knot::cli::subcommands::{
    asks_size, needs_behavior, save_file_name, KnotModifySubcommand, ModifySubcommand,
};
use knot::connection::{
    auth_kind, connect_address, needs_liveness_check, retry_delay_ms, AuthKind, CallOutput,
    ChannelMsg,
};
use knot::error::KnotError;
use knot::knot::credentials::{AuthMethod, KnotCredentials};
use knot::knot::rewrite::{copy_step, next_range, stream_read_outcome, CopyStep, TRANSFER_CHUNK};
use knot::knot::ssh_commands::{
    binary_plan, chunks, read_stream_command, upload_payload, write_stream_command, UPLOAD_CHUNK,
};

#[test]
fn address_is_host_and_port() {
    let c = KnotCredentials {
        host: "example.org".to_string(),
        port: 2222,
        ..KnotCredentials::default()
    };
    assert_eq!(connect_address(&c), "example.org:2222");
}

#[test]
fn authentication_kinds() {
    assert_eq!(auth_kind(&AuthMethod::Password("pw".to_string())), Ok(AuthKind::Password));
    assert_eq!(
        auth_kind(&AuthMethod::PrivateKey { key_path: "~/.ssh/id".to_string(), cert_path: None }),
        Ok(AuthKind::PrivateKey { with_certificate: false })
    );
    assert_eq!(
        auth_kind(&AuthMethod::PrivateKey {
            key_path: "~/.ssh/id".to_string(),
            cert_path: Some("~/.ssh/id-cert.pub".to_string())
        }),
        Ok(AuthKind::PrivateKey { with_certificate: true })
    );
    assert_eq!(auth_kind(&AuthMethod::NoAuth), Err(KnotError::NoAuthentication));
}

#[test]
fn channel_messages_collect_output_and_status() {
    let mut out = CallOutput::new();
    out.take(ChannelMsg::Data(b"hello ".to_vec()));
    out.take(ChannelMsg::ExtendedData(b"world".to_vec()));
    out.take(ChannelMsg::Eof);
    out.take(ChannelMsg::ExitStatus(3));
    out.take(ChannelMsg::Other);
    assert!(!out.closed);
    out.take(ChannelMsg::Close);
    assert!(out.closed);
    assert_eq!(out.finish("cat x"), Ok((3, Some(b"hello world".to_vec()))));
}

#[test]
fn silent_command_has_no_output() {
    let mut out = CallOutput::new();
    out.take(ChannelMsg::ExitStatus(0));
    out.take(ChannelMsg::Close);
    assert_eq!(out.finish("true"), Ok((0, None)));
}

#[test]
fn channel_without_exit_status_fails() {
    let mut out = CallOutput::new();
    out.take(ChannelMsg::Data(b"partial".to_vec()));
    out.take(ChannelMsg::Close);
    assert_eq!(
        out.finish("knot -V"),
        Err(KnotError::CommandWithoutExitStatus { command: "knot -V".to_string() })
    );
}

#[test]
fn retries_wait_longer_each_time() {
    assert_eq!(retry_delay_ms(0), 50);
    assert_eq!(retry_delay_ms(1), 100);
    assert_eq!(retry_delay_ms(9), 500);
    assert_eq!(retry_delay_ms(u64::MAX / 50 - 1), u64::MAX / 50 * 50);
}

#[test]
fn idle_sessions_are_tested_after_thirty_seconds() {
    assert!(!needs_liveness_check(30000));
    assert!(needs_liveness_check(30001));
    assert!(!needs_liveness_check(0));
}

#[test]
fn progress_graph_pieces() {
    assert_eq!(done_nodes(0), "");
    assert_eq!(done_nodes(2), "\u{f111} ———\u{f111} ———");
    assert_eq!(
        remaining_nodes(0, 3),
        " \u{f111}——— \u{f111}———   [Syncing Knot 01/03]"
    );
    assert_eq!(remaining_nodes(11, 12), "   [Syncing Knot 12/12]");
    assert_eq!(final_graph(0), "");
    assert_eq!(final_graph(1), "\u{f111}");
    assert_eq!(final_graph(3), "\u{f111} ———\u{f111} ———\u{f111}");
}

#[test]
fn progress_escape_and_percent() {
    assert_eq!(progress_escape(42), "\x1b]9;4;1;42\x07");
    assert_eq!(progress_escape(0), "\x1b]9;4;1;0\x07");
    assert_eq!(progress_percent(7), 7);
    assert_eq!(progress_percent(256), 0);
}

#[test]
fn stream_commands() {
    assert_eq!(
        write_stream_command("knot", "/data/a b.txt", "/data/a b.txt_knot.knot_tmp"),
        "knot file write-stream '/data/a b.txt' --temporal-path '/data/a b.txt_knot.knot_tmp'"
    );
    assert_eq!(
        read_stream_command("./.local/bin/knot", "/data/x"),
        "./.local/bin/knot file read-stream '/data/x'"
    );
}

#[test]
fn binary_choice() {
    assert_eq!(binary_plan(Some(0), None), ("knot", false));
    assert_eq!(binary_plan(Some(0), Some(127)), ("knot", false));
    assert_eq!(binary_plan(Some(127), Some(127)), ("./.local/bin/knot", true));
    assert_eq!(binary_plan(Some(127), Some(0)), ("./.local/bin/knot", false));
    assert_eq!(binary_plan(None, Some(127)), ("./.local/bin/knot", true));
}

#[test]
fn data_is_cut_into_pieces_that_join_back() {
    let data: Vec<u8> = (0u8..10).collect();
    let pieces = chunks(&data, 4);
    assert_eq!(pieces, vec![vec![0, 1, 2, 3], vec![4, 5, 6, 7], vec![8, 9]]);
    assert_eq!(pieces.concat(), data);
    assert_eq!(chunks(&data, 10), vec![data.clone()]);
    assert!(chunks(&[], 4).is_empty());
    let big = vec![7u8; UPLOAD_CHUNK * 2 + 1];
    let parts = chunks(&big, UPLOAD_CHUNK);
    assert_eq!(parts.len(), 3);
    assert_eq!(parts[2].len(), 1);
    assert_eq!(parts.concat(), big);
}

#[test]
fn subcommand_questions() {
    assert!(needs_behavior(KnotModifySubcommand::ConflictBehavior));
    assert!(needs_behavior(KnotModifySubcommand::UniqueBehavior));
    assert!(!needs_behavior(KnotModifySubcommand::Path));
    assert!(asks_size(ModifySubcommand::SizeLimit));
    assert!(asks_size(ModifySubcommand::AllowSizeLimit));
    assert!(!asks_size(ModifySubcommand::Caching));
}

#[test]
fn configuration_file_names_when_saving() {
    assert_eq!(save_file_name("config.toml", false, false, None), Some("config.toml".to_string()));
    assert_eq!(save_file_name("config.toml", true, true, None), Some("config.toml".to_string()));
    assert_eq!(
        save_file_name("config.toml", true, false, Some("other.toml".to_string())),
        Some("other.toml".to_string())
    );
    assert_eq!(save_file_name("config.toml", true, false, None), None);
}

#[test]
fn binary_upload_is_sent_as_base64_pieces() {
    assert_eq!(upload_payload(b"hi"), vec![b"aGk=".to_vec()]);
    assert!(upload_payload(b"").is_empty());
    // 12000 bytes are 16000 characters of Base64: one piece
    let one = upload_payload(&vec![0u8; 12000]);
    assert_eq!(one.len(), 1);
    assert_eq!(one[0].len(), UPLOAD_CHUNK);
    // three bytes more need another four characters
    let two = upload_payload(&vec![0u8; 12003]);
    assert_eq!(two.len(), 2);
    assert_eq!(two[1], b"AAAA".to_vec());
}

#[test]
fn copying_a_file_piece_by_piece() {
    assert_eq!(next_range(0), (0, 131072));
    assert_eq!(next_range(5), (5, 5 + TRANSFER_CHUNK));
    // a file of 300000 bytes comes in three reads, then an empty one
    let mut offset = 0u64;
    let mut written = Vec::new();
    for len in [131072usize, 131072, 37856, 0] {
        match copy_step(offset, len) {
            CopyStep::WriteAt { offset: at, next } => {
                written.push(at);
                offset = next;
            }
            CopyStep::Finish => break,
        }
    }
    assert_eq!(written, vec![0, 131072, 262144]);
    assert_eq!(offset, 300000);
    assert_eq!(copy_step(300000, 0), CopyStep::Finish);
    assert_eq!(stream_read_outcome(Some(0)), Ok(()));
    assert!(matches!(
        stream_read_outcome(Some(2)),
        Err(KnotError::RemoteCommandFailed { code: 2, .. })
    ));
    assert!(matches!(stream_read_outcome(None), Err(KnotError::NoExitStatus { .. })));
}
