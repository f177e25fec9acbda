use luciole::glossary::{add_entry, remove_entry, system_prompt_fragment, Entry};

fn e(s: &str, f: &str) -> Entry {
    Entry { short: s.to_string(), full: f.to_string() }
}

fn pairs(v: &[Entry]) -> Vec<(&str, &str)> {
    v.iter().map(|x| (x.short.as_str(), x.full.as_str())).collect()
}

#[test]
fn add_appends_or_updates_first() {
    let mut g = vec![e("DGFIP", "old"), e("ANSSI", "Agence"), e("DGFIP", "dup")];
    add_entry(&mut g, "DGFIP".to_string(), "Direction générale des Finances publiques".to_string());
    assert_eq!(
        pairs(&g),
        vec![("DGFIP", "Direction générale des Finances publiques"), ("ANSSI", "Agence"), ("DGFIP", "dup")]
    );
    add_entry(&mut g, "CNIL".to_string(), "Commission".to_string());
    assert_eq!(g.len(), 4);
    assert_eq!(pairs(&g)[3], ("CNIL", "Commission"));
    add_entry(&mut g, "CNIL".to_string(), "Commission".to_string());
    assert_eq!(g.len(), 4);
}

#[test]
fn remove_drops_every_entry_for_the_acronym() {
    let mut g = vec![e("A", "1"), e("B", "2"), e("A", "3"), e("C", "4")];
    remove_entry(&mut g, "A");
    assert_eq!(pairs(&g), vec![("B", "2"), ("C", "4")]);
    remove_entry(&mut g, "A");
    assert_eq!(pairs(&g), vec![("B", "2"), ("C", "4")]);
    remove_entry(&mut g, "b");
    assert_eq!(g.len(), 2);
}

#[test]
fn add_then_remove_leaves_no_entry() {
    let mut g = vec![e("B", "2")];
    add_entry(&mut g, "A".to_string(), "x".to_string());
    remove_entry(&mut g, "A");
    assert_eq!(pairs(&g), vec![("B", "2")]);
}

#[test]
fn fragment_lists_entries() {
    assert_eq!(system_prompt_fragment(&vec![]), "");
    let g = vec![e("DGFIP", "Direction générale des Finances publiques"), e("RGPD", "Règlement")];
    assert_eq!(
        system_prompt_fragment(&g),
        "Glossaire (utilise ces définitions si l'acronyme apparaît) :\n- DGFIP = Direction générale des Finances publiques\n- RGPD = Règlement\n"
    );
}
