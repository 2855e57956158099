use autosave::config::Config;
use autosave::state::{
    change_watch_list, get_watch_list, kill, response_into_result, ApiResponse, ApiState,
    ChangeWatchRequest, WatchListFile, WatchListFileEntry,
};

fn config_with(branch: &str, delay: u64) -> Config {
    let mut c = Config::new();
    c.branch = Some(branch.to_string());
    c.delay = delay;
    c
}

#[test]
fn empty_watch_list() {
    let state = ApiState::new();
    match get_watch_list(&state) {
        ApiResponse::Success { data } => assert!(data.paths.is_empty()),
        ApiResponse::Failed { .. } => panic!("listing never fails"),
    }
}

#[test]
fn add_then_list() {
    let mut state = ApiState::new();
    let req = ChangeWatchRequest::Add { path: b"/repo".to_vec(), config: Config::new() };
    assert!(matches!(change_watch_list(&mut state, req), ApiResponse::Success { .. }));
    match get_watch_list(&state) {
        ApiResponse::Success { data } => {
            assert_eq!(data.paths, vec![b"/repo".to_vec()]);
        }
        ApiResponse::Failed { .. } => panic!("listing never fails"),
    }
}

#[test]
fn second_config_joins_existing_entry_in_delay_order() {
    let mut state = ApiState::new();
    state.append_watch_dir(b"/repo".to_vec(), config_with("a", 30));
    state.append_watch_dir(b"/repo".to_vec(), config_with("b", 3));
    assert_eq!(state.paths.len(), 1);
    let configs = &state.paths[0].1.configs;
    assert_eq!(configs.len(), 2);
    assert_eq!(configs[0].delay, 3);
    assert_eq!(configs[1].delay, 30);
}

#[test]
fn config_with_same_delay_replaces_the_tier() {
    let mut state = ApiState::new();
    state.append_watch_dir(b"/repo".to_vec(), config_with("first", 3));
    state.append_watch_dir(b"/repo".to_vec(), config_with("second", 3));
    let configs = &state.paths[0].1.configs;
    assert_eq!(configs.len(), 1);
    assert_eq!(configs[0].branch(), "second".to_string());
}

#[test]
fn remove_missing_path_fails_with_message() {
    let mut state = ApiState::new();
    let req = ChangeWatchRequest::Remove { path: b"/absent".to_vec() };
    match change_watch_list(&mut state, req) {
        ApiResponse::Failed { message } => {
            assert_eq!(message, "specified path is not in watch list".to_string());
        }
        ApiResponse::Success { .. } => panic!("removal of a missing path must fail"),
    }
}

#[test]
fn remove_existing_path() {
    let mut state = ApiState::new();
    state.append_watch_dir(b"/repo".to_vec(), Config::new());
    let req = ChangeWatchRequest::Remove { path: b"/repo".to_vec() };
    assert!(matches!(change_watch_list(&mut state, req), ApiResponse::Success { .. }));
    assert!(state.paths.is_empty());
}

#[test]
fn kill_records_request_and_keeps_the_list() {
    let mut state = ApiState::new();
    state.append_watch_dir(b"/repo".to_vec(), Config::new());
    let resp = kill(&mut state);
    assert!(matches!(resp, ApiResponse::Success { .. }));
    assert!(state.kill_requested);
    assert_eq!(state.paths.len(), 1);
    assert_eq!(state.paths[0].0, b"/repo".to_vec());
}

#[test]
fn envelope_reads_back_as_result() {
    let ok: ApiResponse<u32> = ApiResponse::Success { data: 7 };
    assert_eq!(response_into_result(ok), Ok(7));
    let bad: ApiResponse<u32> = ApiResponse::Failed { message: "no".to_string() };
    assert_eq!(response_into_result(bad), Err("no".to_string()));
}

#[test]
fn file_round_trip_preserves_entries() {
    let mut state = ApiState::new();
    state.append_watch_dir(b"/a".to_vec(), config_with("x", 3));
    state.append_watch_dir(b"/a".to_vec(), config_with("y", 30));
    state.append_watch_dir(b"/b".to_vec(), Config::new());
    let file = state.to_file();
    let replayed = ApiState::from_file(&file);
    assert_eq!(replayed.paths.len(), 2);
    assert_eq!(replayed.paths[0].0, b"/a".to_vec());
    assert_eq!(replayed.paths[0].1.configs.len(), 2);
    assert_eq!(replayed.paths[0].1.configs[0].delay, 3);
    assert_eq!(replayed.paths[0].1.configs[1].delay, 30);
    assert_eq!(replayed.paths[1].0, b"/b".to_vec());
}

#[test]
fn replay_sorts_and_merges_unordered_files() {
    let file = WatchListFile {
        paths: vec![
            (
                b"/r".to_vec(),
                WatchListFileEntry { configs: vec![config_with("a", 30), config_with("b", 3)] },
            ),
            (b"/r".to_vec(), WatchListFileEntry { configs: vec![config_with("c", 10)] }),
        ],
    };
    let state = ApiState::from_file(&file);
    assert_eq!(state.paths.len(), 1);
    let delays: Vec<u64> = state.paths[0].1.configs.iter().map(|c| c.delay).collect();
    assert_eq!(delays, vec![3, 10, 30]);
}
