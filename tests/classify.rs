use raxtax::codec::sequence_to_kmers;
use raxtax::fasta::{parse_fasta, FastaError};
use raxtax::index::{IndexError, Tree};
use raxtax::intersection::compute_intersections;
use raxtax::orientation::{is_correct_oriented, reverse_complement};
use raxtax::run::{classify, orient_query, ClassifyError};

fn codes(s: &str) -> Vec<u16> {
    sequence_to_kmers(&s.as_bytes().to_vec(), 4)
}

fn two_references() -> Vec<(Vec<u16>, String)> {
    vec![
        (codes("AAAACCCC"), "k:A,p:B".to_string()),
        (codes("CCCCGGGG"), "k:A,p:C".to_string()),
    ]
}

#[test]
fn codec_packs_two_bits_per_base() {
    assert_eq!(codes("AAAACCCC"), vec![0, 1, 5, 21, 85]);
    assert_eq!(codes("CCCCGGGG"), vec![85, 86, 90, 106, 170]);
    assert_eq!(codes("acgt"), vec![27]);
    assert_eq!(codes("TTTT"), vec![255]);
}

#[test]
fn codec_skips_windows_with_other_bytes() {
    assert_eq!(codes("AAAANAAAA"), vec![0, 0]);
    assert_eq!(codes("ACG"), Vec::<u16>::new());
    assert_eq!(codes(""), Vec::<u16>::new());
}

#[test]
fn codec_complement_is_bitwise_not_within_width() {
    let forward = codes("ACGTTGCA");
    let complemented = codes("TGCAACGT");
    for (a, b) in forward.iter().zip(complemented.iter()) {
        assert_eq!(*b, !*a & 0xff);
    }
}

#[test]
fn new_index_has_one_empty_list_per_code() {
    let t = Tree::new(4);
    assert_eq!(t.k_mer_map.len(), 256);
    assert!(t.k_mer_map.iter().all(|l| l.is_empty()));
    assert_eq!(t.num_tips, 0);
    assert_eq!(Tree::new(8).k_mer_map.len(), 65536);
}

#[test]
fn postings_keep_multiplicity() {
    let refs = vec![
        (vec![3u16, 7, 3, 3], "a".to_string()),
        (vec![7u16, 1], "b".to_string()),
    ];
    let t = Tree::build(2, &refs).unwrap();
    assert_eq!(t.k_mer_map[3], vec![0, 0, 0]);
    assert_eq!(t.k_mer_map[7], vec![0, 1]);
    assert_eq!(t.k_mer_map[1], vec![1]);
    assert!(t.k_mer_map[0].is_empty());
    assert_eq!(t.num_tips, 2);
    assert_eq!(t.lineages, vec!["a".to_string(), "b".to_string()]);
}

#[test]
fn reference_sizes_count_entries_per_reference() {
    let refs = vec![
        (vec![3u16, 7, 3, 3], "a".to_string()),
        (vec![7u16, 1], "b".to_string()),
        (vec![], "c".to_string()),
    ];
    let t = Tree::build(2, &refs).unwrap();
    assert_eq!(t.reference_set_sizes(), vec![4, 2, 0]);
}

#[test]
fn add_reference_assigns_next_identifier() {
    let mut t = Tree::new(1);
    assert_eq!(t.add_reference(&vec![0, 3], "x".to_string()), Ok(0));
    assert_eq!(t.add_reference(&vec![3], "y".to_string()), Ok(1));
    assert_eq!(t.k_mer_map[3], vec![0, 1]);
    assert_eq!(t.add_reference(&vec![4], "z".to_string()), Err(IndexError::KmerOutOfRange));
    assert_eq!(t.num_tips, 2);
    assert_eq!(t.lineages.len(), 2);
}

#[test]
fn build_rejects_codes_outside_the_code_space() {
    let refs = vec![(vec![1u16, 16], "a".to_string())];
    assert!(matches!(Tree::build(2, &refs), Err(IndexError::KmerOutOfRange)));
}

#[test]
fn forward_query_matches_its_reference() {
    let refs = two_references();
    let t = Tree::build(4, &refs).unwrap();
    let q = codes("AAAACCCC");
    assert!(is_correct_oriented(&q, &t));
    let out = classify(4, &refs, &vec![("q".to_string(), q)], true).unwrap();
    assert_eq!(out.0, vec![("q".to_string(), 5, vec![5, 1])]);
    assert_eq!(out.1, vec![5, 5]);
    assert_eq!(out.2, vec!["k:A,p:B".to_string(), "k:A,p:C".to_string()]);
}

#[test]
fn complement_strand_query_is_reoriented() {
    let refs = two_references();
    let t = Tree::build(4, &refs).unwrap();
    let r1 = codes("CCCCGGGG");
    let q = reverse_complement(&r1, &t);
    assert_eq!(q, vec![85, 149, 165, 169, 170]);
    assert!(!is_correct_oriented(&q, &t));
    assert_eq!(orient_query(&q, &t, true), r1);
    let queries = vec![("q".to_string(), q.clone())];
    let corrected = classify(4, &refs, &queries, true).unwrap();
    assert_eq!(corrected.0, vec![("q".to_string(), 5, vec![1, 5])]);
    let as_given = classify(4, &refs, &queries, false).unwrap();
    assert_eq!(as_given.0, vec![("q".to_string(), 5, vec![1, 2])]);
}

#[test]
fn palindromic_sequence_keeps_forward_orientation() {
    let refs = two_references();
    let t = Tree::build(4, &refs).unwrap();
    let q = codes("CCCCGGGG");
    assert!(is_correct_oriented(&q, &t));
    assert_eq!(orient_query(&q, &t, true), q);
}

#[test]
fn empty_query_gives_zero_vector() {
    let refs = two_references();
    let out = classify(4, &refs, &vec![("empty".to_string(), vec![])], true).unwrap();
    assert_eq!(out.0, vec![("empty".to_string(), 0, vec![0, 0])]);
}

#[test]
fn complementing_codes_negates_the_vote() {
    let refs = two_references();
    let t = Tree::build(4, &refs).unwrap();
    let q = codes("AAAACCCC");
    let complemented: Vec<u16> = q.iter().map(|c| 255 - c).collect();
    assert!(is_correct_oriented(&q, &t));
    assert!(!is_correct_oriented(&complemented, &t));
}

#[test]
fn tie_keeps_forward_orientation() {
    let refs = vec![(vec![0u16, 3], "a".to_string())];
    let t = Tree::build(1, &refs).unwrap();
    assert!(is_correct_oriented(&vec![0, 3], &t));
    assert!(is_correct_oriented(&vec![], &t));
    assert_eq!(orient_query(&vec![3, 1], &t, true), vec![3, 1]);
}

#[test]
fn match_counts_sum_to_query_total() {
    let refs = vec![
        (vec![3u16, 7, 3, 3], "a".to_string()),
        (vec![7u16, 1], "b".to_string()),
        (vec![1u16], "c".to_string()),
    ];
    let t = Tree::build(2, &refs).unwrap();
    let q = vec![3u16, 7, 1, 1, 9];
    let counts = t.match_counts(&q);
    assert_eq!(counts, vec![4, 3, 2]);
    let total: u32 = counts.iter().sum();
    let expected: usize = q.iter().map(|&c| t.k_mer_map[c as usize].len()).sum();
    assert_eq!(total as usize, expected);
    assert_eq!(t.checked_match_counts(&q), Some(vec![4, 3, 2]));
    assert_eq!(t.match_counts(&vec![9, 0]), vec![0, 0, 0]);
}

#[test]
fn batch_intersections_keep_labels_and_lengths() {
    let refs = two_references();
    let t = Tree::build(4, &refs).unwrap();
    let queries = vec![
        ("dup".to_string(), codes("AAAACCCC")),
        ("dup".to_string(), codes("GGGG")),
    ];
    let r = compute_intersections(&queries, &t);
    assert_eq!(
        r,
        vec![("dup".to_string(), 5, vec![5, 1]), ("dup".to_string(), 1, vec![0, 1])]
    );
}

#[test]
fn identical_runs_give_identical_results() {
    let refs = two_references();
    let queries = vec![
        ("a".to_string(), codes("AAAACCCCGG")),
        ("b".to_string(), codes("CCGGTTTT")),
    ];
    let first = classify(4, &refs, &queries, true).unwrap();
    let second = classify(4, &refs, &queries, true).unwrap();
    assert_eq!(first, second);
}

#[test]
fn run_reports_reference_errors() {
    let refs = vec![(vec![300u16], "a".to_string())];
    assert_eq!(
        classify(4, &refs, &vec![], true),
        Err(ClassifyError::Index(IndexError::KmerOutOfRange))
    );
}

#[test]
fn run_reports_query_codes_out_of_range() {
    let refs = two_references();
    let queries = vec![("q".to_string(), vec![1u16, 256])];
    assert_eq!(classify(4, &refs, &queries, true), Err(ClassifyError::QueryKmerOutOfRange));
}

#[test]
fn fasta_records_are_split_by_headers() {
    let text = b">r1 k:A\nACGT\nAC GT\r\n>r2\r\n\nTTTT\n".to_vec();
    let records = parse_fasta(&text).unwrap();
    assert_eq!(
        records,
        vec![
            (b"r1 k:A".to_vec(), b"ACGTACGT".to_vec()),
            (b"r2".to_vec(), b"TTTT".to_vec()),
        ]
    );
    assert_eq!(parse_fasta(&Vec::new()).unwrap(), Vec::<(Vec<u8>, Vec<u8>)>::new());
    assert_eq!(parse_fasta(&b">only".to_vec()).unwrap(), vec![(b"only".to_vec(), Vec::new())]);
}

#[test]
fn fasta_rejects_sequence_before_header() {
    assert_eq!(parse_fasta(&b"ACGT\n>r\nA\n".to_vec()), Err(FastaError::SequenceBeforeHeader));
    assert_eq!(parse_fasta(&b"\n \n>r\nA\n".to_vec()).unwrap().len(), 1);
}

#[test]
fn header_marker_inside_a_line_is_sequence_data() {
    let records = parse_fasta(&b">h\nAC>GT\n".to_vec()).unwrap();
    assert_eq!(records, vec![(b"h".to_vec(), b"AC>GT".to_vec())]);
}

#[test]
fn permuted_query_gives_same_counts() {
    let refs = two_references();
    let t = Tree::build(4, &refs).unwrap();
    let q = codes("AAAACCCCGGGG");
    let mut shuffled = q.clone();
    shuffled.reverse();
    shuffled.swap(0, 3);
    assert_eq!(t.match_counts(&q), t.match_counts(&shuffled));
    assert_eq!(t.match_counts(&q), vec![5, 5]);
}

#[test]
fn large_query_totals_are_accepted_when_each_count_fits() {
    let refs: Vec<(Vec<u16>, String)> = (0..2000).map(|i| (vec![0u16], format!("r{}", i))).collect();
    let queries = vec![("q".to_string(), vec![0u16; 3000])];
    let out = classify(8, &refs, &queries, false).unwrap();
    assert_eq!(out.0[0].1, 3000);
    assert!(out.0[0].2.iter().all(|&c| c == 3000));
    assert_eq!(out.1, vec![1u32; 2000]);
}

#[test]
fn joined_queries_add_their_counts() {
    let refs = two_references();
    let t = Tree::build(4, &refs).unwrap();
    let a = codes("AAAACCCC");
    let b = codes("CCCCGGGG");
    let mut ab = a.clone();
    ab.extend_from_slice(&b);
    let sum: Vec<u32> = t
        .match_counts(&a)
        .iter()
        .zip(t.match_counts(&b).iter())
        .map(|(x, y)| x + y)
        .collect();
    assert_eq!(t.match_counts(&ab), sum);
}
