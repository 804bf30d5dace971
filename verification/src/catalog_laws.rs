//! What holds of the rule catalog.
use vstd::prelude::*;

use crate::hygiene::hygiene_ids;
use crate::lint::synthesized_ids;
use crate::rules::{ids_of, registry, Rule};
use crate::{identifier, naming};

verus! {

/// A number that tells the ids of the catalog apart: length and two characters near the end.
spec fn fingerprint(s: Seq<char>) -> int {
    s.len() * 1_000_000 + (s[s.len() - 6] as int) * 1000 + s[s.len() - 5] as int
}

/// Where the id with a fingerprint stands in the catalog.
spec fn slot(n: int) -> int {
    if n == 24117114 {
        0
    } else if n == 24045118 {
        1
    } else if n == 27045118 {
        2
    } else if n == 12116045 {
        3
    } else if n == 17110045 {
        4
    } else if n == 6114101 {
        5
    } else if n == 25117114 {
        6
    } else if n == 10045116 {
        7
    } else if n == 13116097 {
        8
    } else if n == 11099111 {
        9
    } else if n == 8117110 {
        10
    } else if n == 19108117 {
        11
    } else if n == 22117114 {
        12
    } else if n == 21116114 {
        13
    } else if n == 29045105 {
        14
    } else if n == 30101102 {
        15
    } else if n == 27101102 {
        16
    } else if n == 17115101 {
        17
    } else if n == 19101110 {
        18
    } else if n == 27115116 {
        19
    } else if n == 19108111 {
        20
    } else if n == 30117114 {
        21
    } else if n == 24116114 {
        22
    } else if n == 12045106 {
        23
    } else if n == 25114121 {
        24
    } else if n == 15116114 {
        25
    } else if n == 11114105 {
        26
    } else if n == 31117114 {
        27
    } else if n == 16116105 {
        28
    } else if n == 17109101 {
        29
    } else if n == 27097099 {
        30
    } else if n == 15105109 {
        31
    } else if n == 19111045 {
        32
    } else if n == 25045105 {
        33
    } else if n == 30097099 {
        34
    } else if n == 19114121 {
        35
    } else if n == 16116045 {
        36
    } else if n == 17101110 {
        37
    } else if n == 21110045 {
        38
    } else if n == 17101120 {
        39
    } else if n == 18045098 {
        40
    } else if n == 15111109 {
        41
    } else if n == 15111108 {
        42
    } else if n == 18098108 {
        43
    } else {
        -1
    }
}

proof fn lemma_fingerprints_0()
    ensures
        fingerprint("add-index-non-concurrent"@) == 24117114,
        fingerprint("add-fk-without-not-valid"@) == 24045118,
        fingerprint("add-check-without-not-valid"@) == 27045118,
        fingerprint("set-not-null"@) == 12116045,
        fingerprint("alter-column-type"@) == 17110045,
        fingerprint("rename"@) == 6114101,
        fingerprint("drop-index-non-concurrent"@) == 25117114,
        fingerprint("drop-table"@) == 10045116,
        fingerprint("drop-database"@) == 13116097,
        fingerprint("drop-column"@) == 11099111,
        fingerprint("truncate"@) == 8117110,
{
    reveal_strlit("add-index-non-concurrent");
    reveal_strlit("add-fk-without-not-valid");
    reveal_strlit("add-check-without-not-valid");
    reveal_strlit("set-not-null");
    reveal_strlit("alter-column-type");
    reveal_strlit("rename");
    reveal_strlit("drop-index-non-concurrent");
    reveal_strlit("drop-table");
    reveal_strlit("drop-database");
    reveal_strlit("drop-column");
    reveal_strlit("truncate");
}

proof fn lemma_fingerprints_1()
    ensures
        fingerprint("vacuum-full-cluster"@) == 19108117,
        fingerprint("reindex-non-concurrent"@) == 22117114,
        fingerprint("add-unique-constraint"@) == 21116114,
        fingerprint("add-primary-key-without-index"@) == 29045105,
        fingerprint("add-column-not-null-no-default"@) == 30101102,
        fingerprint("add-column-volatile-default"@) == 27101102,
        fingerprint("add-column-serial"@) == 17115101,
        fingerprint("add-column-identity"@) == 19101110,
        fingerprint("add-column-generated-stored"@) == 27115116,
        fingerprint("set-logged-unlogged"@) == 19108111,
        fingerprint("refresh-matview-non-concurrent"@) == 30117114,
{
    reveal_strlit("vacuum-full-cluster");
    reveal_strlit("reindex-non-concurrent");
    reveal_strlit("add-unique-constraint");
    reveal_strlit("add-primary-key-without-index");
    reveal_strlit("add-column-not-null-no-default");
    reveal_strlit("add-column-volatile-default");
    reveal_strlit("add-column-serial");
    reveal_strlit("add-column-identity");
    reveal_strlit("add-column-generated-stored");
    reveal_strlit("set-logged-unlogged");
    reveal_strlit("refresh-matview-non-concurrent");
}

proof fn lemma_fingerprints_2()
    ensures
        fingerprint("add-exclusion-constraint"@) == 24116114,
        fingerprint("prefer-jsonb"@) == 12045106,
        fingerprint("prefer-bigint-primary-key"@) == 25114121,
        fingerprint("drop-constraint"@) == 15116114,
        fingerprint("add-trigger"@) == 11114105,
        fingerprint("detach-partition-non-concurrent"@) == 31117114,
        fingerprint("attach-partition"@) == 16116105,
        fingerprint("set-access-method"@) == 17109101,
        fingerprint("concurrently-in-transaction"@) == 27097099,
        fingerprint("require-timeout"@) == 15105109,
        fingerprint("identifier-too-long"@) == 19111045,
{
    reveal_strlit("add-exclusion-constraint");
    reveal_strlit("prefer-jsonb");
    reveal_strlit("prefer-bigint-primary-key");
    reveal_strlit("drop-constraint");
    reveal_strlit("add-trigger");
    reveal_strlit("detach-partition-non-concurrent");
    reveal_strlit("attach-partition");
    reveal_strlit("set-access-method");
    reveal_strlit("concurrently-in-transaction");
    reveal_strlit("require-timeout");
    reveal_strlit("identifier-too-long");
}

proof fn lemma_fingerprints_3()
    ensures
        fingerprint("fk-without-covering-index"@) == 25045105,
        fingerprint("enum-value-used-in-transaction"@) == 30097099,
        fingerprint("require-primary-key"@) == 19114121,
        fingerprint("require-not-null"@) == 16116045,
        fingerprint("naming-convention"@) == 17101110,
        fingerprint("forbidden-column-type"@) == 21110045,
        fingerprint("require-if-exists"@) == 17101120,
        fingerprint("unchecked-do-block"@) == 18045098,
        fingerprint("require-comment"@) == 15111109,
        fingerprint("require-columns"@) == 15111108,
        fingerprint("forbid-nullable-fk"@) == 18098108,
{
    reveal_strlit("fk-without-covering-index");
    reveal_strlit("enum-value-used-in-transaction");
    reveal_strlit("require-primary-key");
    reveal_strlit("require-not-null");
    reveal_strlit("naming-convention");
    reveal_strlit("forbidden-column-type");
    reveal_strlit("require-if-exists");
    reveal_strlit("unchecked-do-block");
    reveal_strlit("require-comment");
    reveal_strlit("require-columns");
    reveal_strlit("forbid-nullable-fk");
}

/// The rule catalog: the registered rules, then the synthesized lints.
pub open spec fn catalog() -> Seq<Seq<char>> {
    ids_of(registry()) + synthesized_ids()
}

proof fn lemma_catalog_registered(i: int)
    requires
        0 <= i < registry().len(),
    ensures
        registry().len() == 30,
        catalog()[i] == registry()[i].id_spec(),
        slot(fingerprint(catalog()[i])) == i,
{
    lemma_fingerprints_0();
    lemma_fingerprints_1();
    lemma_fingerprints_2();
    lemma_fingerprints_3();
    assert(catalog()[i] == ids_of(registry())[i]);
    if i == 0 {
        assert(registry()[i].id_spec() == "add-index-non-concurrent"@);
    } else if i == 1 {
        assert(registry()[i].id_spec() == "add-fk-without-not-valid"@);
    } else if i == 2 {
        assert(registry()[i].id_spec() == "add-check-without-not-valid"@);
    } else if i == 3 {
        assert(registry()[i].id_spec() == "set-not-null"@);
    } else if i == 4 {
        assert(registry()[i].id_spec() == "alter-column-type"@);
    } else if i == 5 {
        assert(registry()[i].id_spec() == "rename"@);
    } else if i == 6 {
        assert(registry()[i].id_spec() == "drop-index-non-concurrent"@);
    } else if i == 7 {
        assert(registry()[i].id_spec() == "drop-table"@);
    } else if i == 8 {
        assert(registry()[i].id_spec() == "drop-database"@);
    } else if i == 9 {
        assert(registry()[i].id_spec() == "drop-column"@);
    } else if i == 10 {
        assert(registry()[i].id_spec() == "truncate"@);
    } else if i == 11 {
        assert(registry()[i].id_spec() == "vacuum-full-cluster"@);
    } else if i == 12 {
        assert(registry()[i].id_spec() == "reindex-non-concurrent"@);
    } else if i == 13 {
        assert(registry()[i].id_spec() == "add-unique-constraint"@);
    } else if i == 14 {
        assert(registry()[i].id_spec() == "add-primary-key-without-index"@);
    } else if i == 15 {
        assert(registry()[i].id_spec() == "add-column-not-null-no-default"@);
    } else if i == 16 {
        assert(registry()[i].id_spec() == "add-column-volatile-default"@);
    } else if i == 17 {
        assert(registry()[i].id_spec() == "add-column-serial"@);
    } else if i == 18 {
        assert(registry()[i].id_spec() == "add-column-identity"@);
    } else if i == 19 {
        assert(registry()[i].id_spec() == "add-column-generated-stored"@);
    } else if i == 20 {
        assert(registry()[i].id_spec() == "set-logged-unlogged"@);
    } else if i == 21 {
        assert(registry()[i].id_spec() == "refresh-matview-non-concurrent"@);
    } else if i == 22 {
        assert(registry()[i].id_spec() == "add-exclusion-constraint"@);
    } else if i == 23 {
        assert(registry()[i].id_spec() == "prefer-jsonb"@);
    } else if i == 24 {
        assert(registry()[i].id_spec() == "prefer-bigint-primary-key"@);
    } else if i == 25 {
        assert(registry()[i].id_spec() == "drop-constraint"@);
    } else if i == 26 {
        assert(registry()[i].id_spec() == "add-trigger"@);
    } else if i == 27 {
        assert(registry()[i].id_spec() == "detach-partition-non-concurrent"@);
    } else if i == 28 {
        assert(registry()[i].id_spec() == "attach-partition"@);
    } else if i == 29 {
        assert(registry()[i].id_spec() == "set-access-method"@);
    }
}

proof fn lemma_catalog_synthesized(i: int)
    requires
        0 <= i < synthesized_ids().len(),
    ensures
        catalog()[registry().len() + i] == synthesized_ids()[i],
        slot(fingerprint(catalog()[registry().len() + i])) == registry().len() + i,
{
    lemma_fingerprints_0();
    lemma_fingerprints_1();
    lemma_fingerprints_2();
    lemma_fingerprints_3();
    assert(catalog()[registry().len() + i] == synthesized_ids()[i]);
    if i == 0 {
        assert(synthesized_ids()[i] == "concurrently-in-transaction"@);
    } else if i == 1 {
        assert(synthesized_ids()[i] == "require-timeout"@);
    } else if i == 2 {
        assert(synthesized_ids()[i] == "identifier-too-long"@);
    } else if i == 3 {
        assert(synthesized_ids()[i] == "fk-without-covering-index"@);
    } else if i == 4 {
        assert(synthesized_ids()[i] == "enum-value-used-in-transaction"@);
    } else if i == 5 {
        assert(synthesized_ids()[i] == "require-primary-key"@);
    } else if i == 6 {
        assert(synthesized_ids()[i] == "require-not-null"@);
    } else if i == 7 {
        assert(synthesized_ids()[i] == "naming-convention"@);
    } else if i == 8 {
        assert(synthesized_ids()[i] == "forbidden-column-type"@);
    } else if i == 9 {
        assert(synthesized_ids()[i] == "require-if-exists"@);
    } else if i == 10 {
        assert(synthesized_ids()[i] == "unchecked-do-block"@);
    } else if i == 11 {
        assert(synthesized_ids()[i] == "require-comment"@);
    } else if i == 12 {
        assert(synthesized_ids()[i] == "require-columns"@);
    } else if i == 13 {
        assert(synthesized_ids()[i] == "forbid-nullable-fk"@);
    }
}

/// No two entries of the catalog have the same id.
pub proof fn rule_ids_are_unique(i: int, j: int)
    requires
        0 <= i < catalog().len(),
        0 <= j < catalog().len(),
        catalog()[i] == catalog()[j],
    ensures
        i == j,
{
    let n = registry().len() as int;
    if i < n {
        lemma_catalog_registered(i);
    } else {
        lemma_catalog_synthesized(i - n);
    }
    if j < n {
        lemma_catalog_registered(j);
    } else {
        lemma_catalog_synthesized(j - n);
    }
}

/// The catalog does not list the findings on directives: no config can name them.
pub proof fn findings_on_directives_are_not_listed(i: int, j: int)
    requires
        0 <= i < catalog().len(),
        0 <= j < hygiene_ids().len(),
    ensures
        catalog()[i] != hygiene_ids()[j],
{
    reveal_strlit("suppression-unknown-rule");
    reveal_strlit("suppression-missing-reason");
    reveal_strlit("suppression-unused");
    assert(fingerprint("suppression-unknown-rule"@) == 24110045);
    assert(fingerprint("suppression-missing-reason"@) == 26114101);
    assert(fingerprint("suppression-unused"@) == 18117110);
    let n = registry().len() as int;
    if i < n {
        lemma_catalog_registered(i);
    } else {
        lemma_catalog_synthesized(i - n);
    }
}

} // verus!
