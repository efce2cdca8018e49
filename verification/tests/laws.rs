//! The laws of pruning and printing, checked on concrete documents: a few
//! hand-written ones and a deterministic family of generated ones (a named
//! query and fragments `F0..Fn` whose spreads run only forward).

use std::collections::BTreeSet;

use graphql_drop_unused_definitions::ast::Definition;
use graphql_drop_unused_definitions::{drop_unused_definitions, parse, print};

struct GenDoc {
    query_spreads: Vec<usize>,
    fragment_spreads: Vec<Vec<usize>>,
}

impl GenDoc {
    fn source(&self) -> String {
        let mut out = String::from("query Q {");
        for &target in &self.query_spreads {
            out.push_str(&format!(" ...F{target}"));
        }
        out.push_str(" __typename }\n");
        for (index, spreads) in self.fragment_spreads.iter().enumerate() {
            out.push_str(&format!("fragment F{index} on T {{"));
            for &target in spreads {
                out.push_str(&format!(" ...F{target}"));
            }
            out.push_str(&format!(" field{index} }}\n"));
        }
        out
    }

    fn reachable(&self) -> BTreeSet<usize> {
        let mut seen = BTreeSet::new();
        let mut stack: Vec<usize> = self.query_spreads.clone();
        while let Some(name) = stack.pop() {
            if seen.insert(name) {
                stack.extend(self.fragment_spreads[name].iter().copied());
            }
        }
        seen
    }
}

/// A small linear congruential generator, so the family is the same on
/// every run.
struct Lcg(u64);

impl Lcg {
    fn below(&mut self, n: usize) -> usize {
        self.0 = self.0.wrapping_mul(6364136223846793005).wrapping_add(1442695040888963407);
        ((self.0 >> 33) as usize) % n.max(1)
    }
}

fn generated() -> Vec<GenDoc> {
    let mut rng = Lcg(7);
    let mut docs = Vec::new();
    for _ in 0..150 {
        let count = rng.below(8);
        let query_spreads = (0..rng.below(6)).filter_map(|_| {
            let t = rng.below(count);
            (t < count).then_some(t)
        }).collect();
        let fragment_spreads = (0..count)
            .map(|i| {
                (0..rng.below(4))
                    .filter_map(|_| {
                        let t = i + 1 + rng.below(count);
                        (t < count).then_some(t)
                    })
                    .collect()
            })
            .collect();
        docs.push(GenDoc { query_spreads, fragment_spreads });
    }
    docs
}

fn printed_fragment_names(printed: &str) -> BTreeSet<usize> {
    let mut names = BTreeSet::new();
    for line in printed.lines() {
        if let Some(rest) = line.strip_prefix("fragment F") {
            if let Some(end) = rest.find(' ') {
                if let Ok(index) = rest[..end].parse::<usize>() {
                    names.insert(index);
                }
            }
        }
    }
    names
}

#[test]
fn generated_reachability_is_sound_and_complete() {
    for doc in generated() {
        let ast = parse(&doc.source()).unwrap();
        let printed = print(&drop_unused_definitions(&ast, "Q"));
        assert_eq!(printed_fragment_names(&printed), doc.reachable(), "{}", doc.source());
        let fragment_lines = printed.lines().filter(|l| l.starts_with("fragment F")).count();
        assert_eq!(fragment_lines, doc.reachable().len());
    }
}

#[test]
fn generated_found_result_holds_exactly_one_operation() {
    for doc in generated() {
        let ast = parse(&doc.source()).unwrap();
        let dropped = drop_unused_definitions(&ast, "Q");
        let operations = dropped
            .definitions
            .iter()
            .filter(|d| matches!(d, Definition::Operation(_)))
            .count();
        assert_eq!(operations, 1);
    }
}

#[test]
fn generated_second_drop_is_idempotent() {
    for doc in generated() {
        let ast = parse(&doc.source()).unwrap();
        let once = drop_unused_definitions(&ast, "Q");
        let twice = drop_unused_definitions(&once, "Q");
        assert_eq!(print(&once), print(&twice));
    }
}

#[test]
fn generated_unknown_name_returns_input_unchanged() {
    for doc in generated() {
        let ast = parse(&doc.source()).unwrap();
        let dropped = drop_unused_definitions(&ast, "NoSuchOperation");
        assert_eq!(print(&dropped), print(&ast));
    }
}

#[test]
fn generated_output_keeps_input_order() {
    for doc in generated() {
        let ast = parse(&doc.source()).unwrap();
        let printed = print(&drop_unused_definitions(&ast, "Q"));
        let order: Vec<usize> = printed
            .lines()
            .filter_map(|l| l.strip_prefix("fragment F"))
            .filter_map(|rest| rest.split(' ').next()?.parse().ok())
            .collect();
        let mut sorted_order = order.clone();
        sorted_order.sort();
        assert_eq!(order, sorted_order);
        assert!(printed.starts_with("query Q"));
    }
}

#[test]
fn idempotent_with_duplicates_and_cycles() {
    let src = "query Q { ...A }\n\
               fragment A on T { ...B }\n\
               fragment B on T { ...A ...Missing }\n\
               fragment A on U { ...C }\n\
               fragment C on T { c }\n\
               query Other { ...C }";
    let ast = parse(src).unwrap();
    let once = drop_unused_definitions(&ast, "Q");
    let twice = drop_unused_definitions(&once, "Q");
    assert_eq!(print(&once), print(&twice));
    // Both fragments named A are kept, and the spreads of each are followed.
    assert_eq!(
        print(&once),
        "query Q {\n  ...A\n}\n\n\
         fragment A on T {\n  ...B\n}\n\n\
         fragment B on T {\n  ...A\n  ...Missing\n}\n\n\
         fragment A on U {\n  ...C\n}\n\n\
         fragment C on T {\n  c\n}"
    );
}

#[test]
fn every_duplicate_fragment_has_its_spreads_followed() {
    let src = "query Q { ...F }\n\
               fragment F on A { ...G }\n\
               fragment F on B { b }\n\
               fragment G on A { g }";
    let out = print(&drop_unused_definitions(&parse(src).unwrap(), "Q"));
    assert_eq!(
        out,
        "query Q {\n  ...F\n}\n\nfragment F on A {\n  ...G\n}\n\nfragment F on B {\n  b\n}\n\nfragment G on A {\n  g\n}"
    );
}

#[test]
fn printed_output_has_no_trailing_newline() {
    for src in ["{ a }", "query Q { a }\nfragment F on T { b }", "mutation M { a(x: \"s\\n\") }"] {
        let out = print(&parse(src).unwrap());
        assert!(!out.ends_with('\n'), "{out:?}");
    }
}

#[test]
fn printed_strings_are_single_line() {
    let out = print(&parse("query Q { f(a: \"\"\"multi\n  line\"\"\", b: \"\\u0001\") }").unwrap());
    assert_eq!(out, "query Q {\n  f(a: \"multi\\nline\", b: \"\\u0001\")\n}");
}
