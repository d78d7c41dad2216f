use s1m::cache::{
    cache_dir, to_store, CachedScorer, Entry, FileJudgment, LinkJudgment, Scored, SectionJudgment,
    Step, ENTRIES, FORMAT,
};

/// The answer a request gets: a number that the request alone decides.
fn answer(request: &str) -> FileJudgment {
    FileJudgment {
        relevance: (request.len() as f64).to_bits(),
        sections: vec![SectionJudgment {
            heading: Some(request.to_string()),
            first: 1,
            last: 1,
            score: 0.5f64.to_bits(),
        }],
        links: vec![LinkJudgment {
            target: "linked.md".to_string(),
            scent: 0.5f64.to_bits(),
            keep: true,
        }],
    }
}

fn same(a: &FileJudgment, b: &FileJudgment) -> bool {
    a.relevance == b.relevance
        && a.sections.len() == b.sections.len()
        && a.sections.iter().zip(&b.sections).all(|(a, b)| {
            a.heading == b.heading && a.first == b.first && a.last == b.last && a.score == b.score
        })
        && a.links.len() == b.links.len()
        && a.links
            .iter()
            .zip(&b.links)
            .all(|(a, b)| a.target == b.target && a.scent == b.scent && a.keep == b.keep)
}

fn copy(judgment: &FileJudgment) -> FileJudgment {
    FileJudgment {
        relevance: judgment.relevance,
        sections: judgment
            .sections
            .iter()
            .map(|section| SectionJudgment {
                heading: section.heading.clone(),
                first: section.first,
                last: section.last,
                score: section.score,
            })
            .collect(),
        links: judgment
            .links
            .iter()
            .map(|link| LinkJudgment {
                target: link.target.clone(),
                scent: link.scent,
                keep: link.keep,
            })
            .collect(),
    }
}

/// A directory of entries in memory: a path, and what stands there as far as it can be read.
struct Disk {
    entries: Vec<(String, Option<Entry<u64>>)>,
}

impl Disk {
    fn read(&self, path: &str) -> Option<Entry<u64>> {
        let (_, entry) = self.entries.iter().find(|(at, _)| at == path)?;
        entry.as_ref().map(|entry| Entry {
            format: entry.format,
            judgment: copy(&entry.judgment),
            detail: entry.detail,
        })
    }

    fn write(&mut self, path: &str, entry: Option<Entry<u64>>) {
        self.entries.retain(|(at, _)| at != path);
        self.entries.push((path.to_string(), entry));
    }
}

/// A scorer asked in one way, and how often it was asked.
struct Fake {
    config: String,
    calls: u64,
}

fn request(fake: &Fake, query: &str, content: &str) -> String {
    format!("{}\n{query}\n{content}", fake.config)
}

fn judge(
    cached: &mut CachedScorer,
    disk: &mut Disk,
    fake: &mut Fake,
    query: &str,
    content: &str,
) -> Scored<u64> {
    let request = request(fake, query, content);
    let place = cached.entry(&CachedScorer::key(&request.clone().into_bytes()));
    match cached.look(disk.read(&place)) {
        Step::Answered(scored) => scored,
        Step::Ask => {
            fake.calls += 1;
            let scored = cached.bought(answer(&request), request.len() as u64);
            disk.write(
                &place,
                Some(to_store(Scored::Called {
                    judgment: copy(scored.judgment()),
                    detail: *scored.detail(),
                })),
            );
            scored
        }
    }
}

#[test]
fn a_second_identical_run_does_not_call_the_scorer_again() {
    let mut disk = Disk { entries: Vec::new() };
    let mut fake = Fake { config: "useful-for".to_string(), calls: 0 };
    let mut cached = CachedScorer::new("/cache");

    let first = judge(&mut cached, &mut disk, &mut fake, "query", "# Home\n");
    let second = judge(&mut cached, &mut disk, &mut fake, "query", "# Home\n");

    assert!(
        same(first.judgment(), second.judgment()),
        "the stored answer is the answer"
    );
    assert!(
        matches!(second, Scored::Reused { .. }),
        "the second run made no call"
    );
    assert!(matches!(first, Scored::Called { .. }), "the first run did");
    assert!(!second.called(), "and says so");
    assert_eq!(
        first.detail(),
        second.detail(),
        "a stored answer keeps what the call cost"
    );
    assert_eq!(fake.calls, 1, "two runs, one call");
    assert_eq!(cached.calls(), 1, "and the counter reports it");
    assert_eq!(cached.hits(), 1);
    assert_eq!(cached.dir(), "/cache/judgments");
    assert!(same(&second.into_judgment(), first.judgment()));
}

#[test]
fn a_changed_request_is_a_miss() {
    let mut disk = Disk { entries: Vec::new() };
    let mut fake = Fake { config: "useful-for".to_string(), calls: 0 };
    let mut cached = CachedScorer::new("/cache");

    judge(&mut cached, &mut disk, &mut fake, "query", "# Home\n");
    judge(&mut cached, &mut disk, &mut fake, "another query", "# Home\n");
    assert_eq!(fake.calls, 2, "the query is part of the request");

    let edited = "# Home\n\nMore.\n";
    judge(&mut cached, &mut disk, &mut fake, "another query", edited);
    assert_eq!(fake.calls, 3, "the content is part of the request, at the same path");

    // Another mode about the same page and query is a different request too, in front of the same
    // directory.
    let mut other = Fake { config: "about".to_string(), calls: 0 };
    let mut other_cached = CachedScorer::new("/cache");
    let scored = judge(&mut other_cached, &mut disk, &mut other, "another query", edited);
    assert!(
        matches!(scored, Scored::Called { .. }),
        "a different mode is a different request"
    );
    assert_eq!(other.calls, 1);
}

#[test]
fn an_entry_this_version_cannot_read_is_recomputed() {
    let mut disk = Disk { entries: Vec::new() };
    let mut fake = Fake { config: "useful-for".to_string(), calls: 0 };
    let mut cached = CachedScorer::new("/cache");
    let asked = request(&fake, "query", "# Home\n");
    let place = cached.entry(&CachedScorer::key(&asked.into_bytes()));

    // A half-written entry and an empty file cannot be read at all; one is from another format.
    for unreadable in 0..3 {
        let stored = match unreadable {
            2 => Some(Entry { format: FORMAT + 1, judgment: answer("stale"), detail: 0u64 }),
            _ => None,
        };
        disk.write(&place, stored);

        match judge(&mut cached, &mut disk, &mut fake, "query", "# Home\n") {
            Scored::Called { judgment, .. } => assert!(
                same(&judgment, &answer("useful-for\nquery\n# Home\n")),
                "the answer is the call's, not the entry's"
            ),
            Scored::Reused { .. } => panic!("{unreadable} should have been a miss"),
        }
    }
    assert_eq!(fake.calls, 3);

    // The fresh answer replaced the unreadable ones.
    assert!(matches!(
        judge(&mut cached, &mut disk, &mut fake, "query", "# Home\n"),
        Scored::Reused { .. }
    ));
    assert_eq!(fake.calls, 3);
}

#[test]
fn the_cached_scorer_is_shareable() {
    fn assert_send_sync<T: Send + Sync>() {}
    assert_send_sync::<CachedScorer>();
}

/// The variables in their order, and a blank variable counting as no variable at all.
#[test]
fn the_cache_directory_follows_the_variables_in_order() {
    let path = |value: &str| Some(value.to_string());
    let dir = |a: &Option<String>, b: &Option<String>, c: &Option<String>| match cache_dir(a, b, c)
    {
        Ok(dir) => dir,
        Err(_) => panic!("a directory"),
    };
    let override_dir = path("/tmp/override");
    let xdg = path("/xdg");
    let home = path("/home/u");

    assert_eq!(
        dir(&override_dir, &xdg, &home),
        "/tmp/override",
        "S1M_CACHE_DIR is the override"
    );
    assert_eq!(dir(&None, &xdg, &home), "/xdg/s1m", "then the XDG cache home");
    assert_eq!(
        dir(&None, &None, &home),
        "/home/u/.cache/s1m",
        "then the XDG fallback under HOME"
    );
    assert!(cache_dir(&None, &None, &None).is_err());

    assert_eq!(
        dir(&path(""), &path(" "), &home),
        "/home/u/.cache/s1m",
        "a variable set to nothing is no override"
    );
    assert!(cache_dir(&path("\t"), &None, &None).is_err());
}

/// An entry is named by the SHA-256 of the request, in lower-case hexadecimal.
#[test]
fn an_entry_is_named_by_the_hash_of_its_request() {
    let key = CachedScorer::key(&b"abc".to_vec());
    assert_eq!(
        key,
        "ba7816bf8f01cfea414140de5dae2223b00361a396177a9cb410ff61f20015ad"
    );
    let cached = CachedScorer::new("/cache");
    assert_eq!(cached.entry(&key), format!("/cache/{ENTRIES}/{key}.json"));
}
