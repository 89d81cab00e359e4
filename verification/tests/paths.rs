use votings_service::paths::{
    ballot_by_store_tx_index_storage_path, ballots_storage_path,
    decrypted_ballots_counter_storage_path, invalid_ballots_storage_path, results_storage_path,
    stored_ballots_counter_storage_path, voters_list_storage_path,
};

fn all_paths(voting_id: &str) -> Vec<String> {
    vec![
        voters_list_storage_path(voting_id),
        ballots_storage_path(voting_id),
        invalid_ballots_storage_path(voting_id),
        ballot_by_store_tx_index_storage_path(voting_id),
        stored_ballots_counter_storage_path(voting_id),
        decrypted_ballots_counter_storage_path(voting_id),
        results_storage_path(voting_id),
    ]
}

#[test]
fn index_names_follow_the_registry_layout() {
    assert_eq!(voters_list_storage_path("v1"), "votings_registry.v1.voters_list");
    assert_eq!(ballots_storage_path("v1"), "votings_registry.v1.ballots_storage");
    assert_eq!(
        invalid_ballots_storage_path("v1"),
        "votings_registry.v1.ballots_storage.invalid_ballots"
    );
    assert_eq!(
        ballot_by_store_tx_index_storage_path("v1"),
        "votings_registry.v1.ballots_storage.ballot_by_store_tx_index"
    );
    assert_eq!(
        stored_ballots_counter_storage_path("v1"),
        "votings_registry.v1.ballots_storage.stored_ballots_counter"
    );
    assert_eq!(
        decrypted_ballots_counter_storage_path("v1"),
        "votings_registry.v1.ballots_storage.decrypted_ballots_counter"
    );
    assert_eq!(results_storage_path("v1"), "votings_registry.v1.ballots_storage.results");
}

#[test]
fn index_names_with_empty_voting_id() {
    assert_eq!(voters_list_storage_path(""), "votings_registry..voters_list");
    assert_eq!(results_storage_path(""), "votings_registry..ballots_storage.results");
}

#[test]
fn index_names_never_collide_across_kinds_and_votings() {
    let ids = ["a", "b", "a.ballots_storage", "", "voting"];
    let mut seen: Vec<(usize, usize, String)> = Vec::new();
    for (i, id) in ids.iter().enumerate() {
        for (k, p) in all_paths(id).into_iter().enumerate() {
            for (j, l, q) in seen.iter() {
                if *j != i || *l != k {
                    assert_ne!(*q, p, "{} {} collides", id, k);
                }
            }
            seen.push((i, k, p));
        }
    }
}
