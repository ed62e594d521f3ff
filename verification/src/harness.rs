use vstd::prelude::*;

verus! {

/// Whether a pattern is a valid regular expression.
pub uninterp spec fn regex_valid(pattern: Seq<char>) -> bool;

/// Whether a regular expression matches somewhere in a text; a function
/// of the two texts alone.
pub uninterp spec fn regex_accepts(pattern: Seq<char>, text: Seq<char>) -> bool;

/// Relies on regex::Regex::new and regex::Regex::is_match: whether the
/// pattern compiles, and where it matches, depend on the two texts alone.
#[verifier::external_body]
fn regex_is_match(pattern: &str, text: &str) -> (r: Option<bool>)
    ensures
        (r is Some) == regex_valid(pattern@),
        r matches Some(m) ==> m == regex_accepts(pattern@, text@),
{
    match regex::Regex::new(pattern) {
        Ok(re) => Some(re.is_match(text)),
        Err(_) => None,
    }
}

/// The subsequence of `names` the pattern matches, in their given order.
pub open spec fn matching(pattern: Seq<char>, names: Seq<Seq<char>>) -> Seq<Seq<char>>
    decreases names.len(),
{
    if names.len() == 0 {
        Seq::empty()
    } else if regex_accepts(pattern, names[0]) {
        seq![names[0]] + matching(pattern, names.skip(1))
    } else {
        matching(pattern, names.skip(1))
    }
}

proof fn lemma_matching_push(pattern: Seq<char>, s: Seq<Seq<char>>, x: Seq<char>)
    ensures
        matching(pattern, s.push(x)) == matching(pattern, s) + (if regex_accepts(pattern, x) {
            seq![x]
        } else {
            Seq::<Seq<char>>::empty()
        }),
    decreases s.len(),
{
    let tail: Seq<Seq<char>> = if regex_accepts(pattern, x) {
        seq![x]
    } else {
        Seq::<Seq<char>>::empty()
    };
    if s.len() == 0 {
        assert(s.push(x)[0] == x);
        assert(s.push(x).skip(1) =~= Seq::<Seq<char>>::empty());
        assert(matching(pattern, Seq::<Seq<char>>::empty()) == Seq::<Seq<char>>::empty());
        assert(matching(pattern, s.push(x)) =~= matching(pattern, s) + tail);
    } else {
        assert(s.push(x)[0] == s[0]);
        assert(s.push(x).skip(1) =~= s.skip(1).push(x));
        lemma_matching_push(pattern, s.skip(1), x);
        assert(matching(pattern, s.push(x)) =~= matching(pattern, s) + tail);
    }
}

/// Selects the source-file names the pattern matches, keeping their
/// order, or nothing when the pattern is not a valid regular expression
/// (on which the original harness panics).
pub fn filter_matching(names: &Vec<String>, pattern: &str) -> (r: Option<Vec<String>>)
    ensures
        (r is Some) == regex_valid(pattern@),
        r matches Some(v) ==> v@.map_values(|s: String| s@) == matching(
            pattern@,
            names@.map_values(|s: String| s@),
        ),
{
    if regex_is_match(pattern, "").is_none() {
        return None;
    }
    let ghost all = names@.map_values(|s: String| s@);
    let mut out: Vec<String> = Vec::new();
    let mut i: usize = 0;
    proof {
        assert(all.take(0) =~= Seq::<Seq<char>>::empty());
        assert(out@.map_values(|s: String| s@) =~= Seq::<Seq<char>>::empty());
    }
    while i < names.len()
        invariant
            i <= names@.len(),
            regex_valid(pattern@),
            all == names@.map_values(|s: String| s@),
            out@.map_values(|s: String| s@) == matching(pattern@, all.take(i as int)),
        decreases names@.len() - i,
    {
        let ghost out_pre = out@.map_values(|s: String| s@);
        let matched = match regex_is_match(pattern, names[i].as_str()) {
            Some(m) => m,
            None => {
                return None;
            },
        };
        if matched {
            out.push(names[i].clone());
        }
        proof {
            assert(all.take(i + 1) =~= all.take(i as int).push(all[i as int]));
            lemma_matching_push(pattern@, all.take(i as int), all[i as int]);
            if matched {
                assert(out@.map_values(|s: String| s@) =~= out_pre.push(all[i as int]));
                assert(out_pre.push(all[i as int]) =~= out_pre + seq![all[i as int]]);
            }
        }
        i = i + 1;
    }
    proof {
        assert(all.take(names@.len() as int) =~= all);
    }
    Some(out)
}

/// The exit code the module-test harness hands to the process: zero
/// exactly when every test passed, one otherwise.
pub fn harness_exit_code(all_tests_passed: bool) -> (code: i32)
    ensures
        all_tests_passed <==> code == 0,
        !all_tests_passed ==> code == 1,
{
    if all_tests_passed {
        0
    } else {
        1
    }
}

} // verus!
