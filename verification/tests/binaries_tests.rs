use downloader_core::paths::normalize_dir;

#[test]
fn binaries_test_path_normalization_slashes() {
    let test_cases = vec![
        (r"C:\Users\User\Downloads", "C:/Users/User/Downloads"),
        (r"C:\Users\User\Downloads\", "C:/Users/User/Downloads"),
        ("C:/Users/User/Downloads/", "C:/Users/User/Downloads"),
        (r"D:\Downloads///", "D:/Downloads"),
    ];

    for (input, expected) in test_cases {
        let clean = normalize_dir(input);
        assert_eq!(clean, expected);
    }
}
