use fhe_life::client::Client;
use fhe_life::grid::Grid;
use fhe_life::server::Server;

#[test]
fn encrypt_decrypt_round_trip() {
    let rows = vec![vec![1, 0], vec![0, 1]];
    let g = Grid::from_cells(rows.clone()).unwrap();
    let client = Client::with_grid(g);
    let encrypted = client.encrypt_only();
    let decrypted = client.decrypt(encrypted);
    assert_eq!(decrypted, rows);
}

#[test]
fn zero_step_run_decrypts_to_original() {
    let rows = vec![vec![1, 0], vec![1, 1]];
    let g = Grid::from_cells(rows.clone()).unwrap();
    let client = Client::with_grid(g);
    let (server_key, encrypted) = client.encrypt();
    let server = Server::new(server_key, encrypted);
    let result = server.run(0);
    assert!(client.verify(result, 0));
}

#[test]
fn verify_rejects_wrong_step_count() {
    let g = Grid::from_cells(vec![vec![0, 0, 0], vec![1, 1, 1], vec![0, 0, 0]]).unwrap();
    let client = Client::with_grid(g);
    let encrypted = client.encrypt_only();
    // The untouched encryption is generation 0: it is not the blinker's
    // generation 1, so claiming one step must fail verification.
    assert!(!client.verify(encrypted, 1));
}
