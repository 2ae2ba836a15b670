use fragment_directives::matching::{
    TextDirectiveCandidateContents, fragment_directive_filter_non_matching_candidates,
};

fn context(
    full_prefix: &[u8],
    full_start: &[u8],
    full_end: &[u8],
    full_suffix: &[u8],
    prefix: &[u8],
    start: &[u8],
    end: &[u8],
    suffix: &[u8],
    exact: bool,
) -> TextDirectiveCandidateContents {
    TextDirectiveCandidateContents {
        full_prefix_content: full_prefix.to_vec(),
        full_start_content: full_start.to_vec(),
        full_end_content: full_end.to_vec(),
        full_suffix_content: full_suffix.to_vec(),
        prefix_content: prefix.to_vec(),
        start_content: start.to_vec(),
        end_content: end.to_vec(),
        suffix_content: suffix.to_vec(),
        use_exact_matching: exact,
    }
}

#[test]
fn fuzzy_mode_checks_all_four_containments() {
    let m = context(
        b"here comes the ",
        b"start of it",
        b"an end",
        b" end of it",
        b"",
        b"",
        b"",
        b"",
        false,
    );
    let c = context(
        b"",
        b"",
        b"",
        b"",
        b"the ",
        b"start",
        b"end",
        b" end",
        false,
    );
    assert!(m.matches_candidate(&c));
}

#[test]
fn fuzzy_mode_rejects_a_start_mismatch() {
    let m = context(
        b"here comes the ",
        b"other text",
        b"an end",
        b" end of it",
        b"",
        b"",
        b"",
        b"",
        false,
    );
    let c = context(b"", b"", b"", b"", b"the ", b"start", b"end", b" end", false);
    assert!(!m.matches_candidate(&c));
}

#[test]
fn fuzzy_mode_rejects_a_prefix_mismatch() {
    let m = context(
        b"here comes a ",
        b"start of it",
        b"an end",
        b" end of it",
        b"",
        b"",
        b"",
        b"",
        false,
    );
    let c = context(b"", b"", b"", b"", b"the ", b"start", b"end", b" end", false);
    assert!(!m.matches_candidate(&c));
}

#[test]
fn exact_mode_ignores_start_and_end() {
    let m = context(
        b"here comes the ",
        b"completely unrelated",
        b"no such end",
        b" end of it",
        b"",
        b"",
        b"",
        b"",
        true,
    );
    let c = context(
        b"",
        b"",
        b"",
        b"",
        b"the ",
        b"start that is nowhere",
        b"end that is nowhere",
        b" end",
        true,
    );
    assert!(m.matches_candidate(&c));
}

#[test]
fn exact_mode_still_requires_prefix_and_suffix() {
    let m = context(b"abc", b"", b"", b"xyz", b"", b"", b"", b"", true);
    let c = context(b"", b"", b"", b"", b"zzz", b"", b"", b"", true);
    assert!(!m.matches_candidate(&c));
}

#[test]
fn empty_requirements_always_match() {
    let m = context(b"", b"", b"", b"", b"", b"", b"", b"", false);
    let c = context(b"", b"", b"", b"", b"", b"", b"", b"", false);
    assert!(m.matches_candidate(&c));
}

#[test]
fn batch_filter_is_aligned_ascending_and_complete() {
    // Three candidates against three matches, fuzzy mode throughout.
    let matches = vec![
        context(b"the ", b"alpha", b"", b".", b"", b"", b"", b"", false),
        context(b"a ", b"alpha beta", b"", b"!", b"", b"", b"", b"", false),
        context(b"the ", b"gamma", b"", b".", b"", b"", b"", b"", false),
    ];
    let candidates = vec![
        // Matches the two whose full prefix ends with "e " and start begins "alpha"/"gamma".
        context(b"", b"", b"", b"", b"e ", b"", b"", b"", false),
        // Start must begin with "alpha": matches indices 0 and 1.
        context(b"", b"", b"", b"", b"", b"alpha", b"", b"", false),
        // Suffix must begin with "?": matches nothing.
        context(b"", b"", b"", b"", b"", b"", b"", b"?", false),
    ];
    let r = fragment_directive_filter_non_matching_candidates(&candidates, &matches);
    assert_eq!(r.len(), 3);
    assert_eq!(r[0], vec![0, 2]);
    assert_eq!(r[1], vec![0, 1]);
    assert_eq!(r[2], Vec::<usize>::new());
}

#[test]
fn batch_filter_with_no_matches_gives_empty_lists() {
    let candidates = vec![context(b"", b"", b"", b"", b"", b"", b"", b"", false)];
    let matches = Vec::new();
    let r = fragment_directive_filter_non_matching_candidates(&candidates, &matches);
    assert_eq!(r.len(), 1);
    assert!(r[0].is_empty());
}

#[test]
fn batch_filter_with_no_candidates_gives_nothing() {
    let matches = vec![context(b"", b"", b"", b"", b"", b"", b"", b"", false)];
    let r = fragment_directive_filter_non_matching_candidates(&Vec::new(), &matches);
    assert!(r.is_empty());
}

#[test]
fn batch_filter_over_many_candidates_keeps_positions() {
    // A larger batch, so the scan actually fans out over the pool: the
    // candidate at position i requires the suffix of match i alone.
    let n: usize = 64;
    let mut matches = Vec::new();
    let mut candidates = Vec::new();
    for i in 0..n {
        let tag = format!("#{i}#");
        matches.push(context(b"", b"", b"", tag.as_bytes(), b"", b"", b"", b"", false));
        candidates.push(context(b"", b"", b"", b"", b"", b"", b"", tag.as_bytes(), false));
    }
    let r = fragment_directive_filter_non_matching_candidates(&candidates, &matches);
    assert_eq!(r.len(), n);
    for i in 0..n {
        assert_eq!(r[i], vec![i]);
    }
}
