//! Rewriting of type strings: each word that names an aliased record gives
//! way to the alias.

use crate::directive::{Directive, DirectiveView};
use crate::tables::{alias_entries, aliases_get, aliases_insert, aliases_new};
use crate::text::{
    chars_of, cuts, is_word, join, lemma_join_concat, lemma_words_are_words, lemma_words_concat,
    lemma_words_of_word, word_ranges, words,
};
use fnv::FnvHashMap;
use vstd::prelude::*;
use vstd::string::StrSliceExecFns;
use vstd::string::StringExecFns;

verus! {

/// The aliases of one source file, by the name of the record they stand for.
pub struct Rewrites {
    table: FnvHashMap<String, String>,
}

impl View for Rewrites {
    type V = Map<Seq<char>, Seq<char>>;

    closed spec fn view(&self) -> Map<Seq<char>, Seq<char>> {
        alias_entries(self.table)
    }
}

/// The aliases that `directives` declare. Where two speak of one record,
/// the later one holds.
pub open spec fn alias_table(directives: Seq<DirectiveView>) -> Map<Seq<char>, Seq<char>>
    decreases directives.len(),
{
    if directives.len() == 0 {
        Map::empty()
    } else {
        let before = alias_table(directives.drop_last());
        match directives.last() {
            DirectiveView::AliasOf { typename, alias } => before.insert(alias.name, typename),
            _ => before,
        }
    }
}

/// What stands for `word`: its alias where it has one, else `word` itself.
pub open spec fn alias_of(table: Map<Seq<char>, Seq<char>>, word: Seq<char>) -> Seq<char> {
    if table.contains_key(word) {
        table[word]
    } else {
        word
    }
}

/// Each of `list` replaced by what stands for it.
pub open spec fn substitute(table: Map<Seq<char>, Seq<char>>, list: Seq<Seq<char>>) -> Seq<
    Seq<char>,
> {
    Seq::new(list.len(), |i: int| alias_of(table, list[i]))
}

/// The words of `ty`, each replaced by what stands for it, with one space
/// between each two.
pub open spec fn spec_rewrite(table: Map<Seq<char>, Seq<char>>, ty: Seq<char>) -> Seq<char> {
    join(substitute(table, words(ty)), " "@)
}

/// Whether rewriting leaves `phrase`, which holds a word, as it is.
pub open spec fn is_settled(table: Map<Seq<char>, Seq<char>>, phrase: Seq<char>) -> bool {
    words(phrase).len() > 0 && spec_rewrite(table, phrase) == phrase
}

/// Whether every alias that a word can be replaced by is settled: it holds a
/// word, and rewriting leaves it as it is.
pub open spec fn aliases_settled(table: Map<Seq<char>, Seq<char>>) -> bool {
    forall|name: Seq<char>|
        #[trigger] table.contains_key(name) && is_word(name) ==> is_settled(table, table[name])
}

/// Rewriting leaves a list of settled phrases, joined by spaces, as it is.
proof fn lemma_settled_join(table: Map<Seq<char>, Seq<char>>, phrases: Seq<Seq<char>>)
    requires
        forall|i: int| 0 <= i < phrases.len() ==> is_settled(table, #[trigger] phrases[i]),
    ensures
        spec_rewrite(table, join(phrases, " "@)) == join(phrases, " "@),
        phrases.len() > 0 ==> words(join(phrases, " "@)).len() > 0,
    decreases phrases.len(),
{
    reveal_strlit(" ");
    assert(" "@ =~= seq![' ']);
    if phrases.len() == 0 {
        assert(substitute(table, words(Seq::<char>::empty())) =~= Seq::empty());
    } else if phrases.len() == 1 {
    } else {
        let front = phrases.drop_last();
        let last = phrases.last();
        lemma_settled_join(table, front);
        let head = join(front, " "@);
        lemma_words_concat(head, last);
        let x = substitute(table, words(head));
        let y = substitute(table, words(last));
        assert(substitute(table, words(head) + words(last)) =~= x + y);
        lemma_join_concat(x, y, " "@);
    }
}

/// Rewriting is idempotent where the aliases are settled: rewriting what
/// rewriting gave changes nothing.
pub proof fn lemma_rewrite_idempotent(table: Map<Seq<char>, Seq<char>>, ty: Seq<char>)
    requires
        aliases_settled(table),
    ensures
        spec_rewrite(table, spec_rewrite(table, ty)) == spec_rewrite(table, ty),
{
    let phrases = substitute(table, words(ty));
    lemma_words_are_words(ty);
    assert forall|i: int| 0 <= i < phrases.len() implies is_settled(
        table,
        #[trigger] phrases[i],
    ) by {
        let word = words(ty)[i];
        assert(is_word(word));
        if !table.contains_key(word) {
            lemma_words_of_word(word);
            assert(substitute(table, seq![word]) =~= seq![word]);
        }
    }
    lemma_settled_join(table, phrases);
}

impl Rewrites {
    /// The aliases that `directives` declare.
    pub fn from(directives: &Vec<Directive>) -> (rewrites: Rewrites)
        ensures
            rewrites@ == alias_table(directives.deep_view()),
    {
        let mut table = aliases_new();
        let ghost all = directives.deep_view();
        let mut i: usize = 0;
        proof {
            assert(all.take(0) =~= Seq::empty());
        }
        while i < directives.len()
            invariant
                i <= directives.len(),
                all == directives.deep_view(),
                alias_entries(table) == alias_table(all.take(i as int)),
            decreases directives.len() - i,
        {
            proof {
                assert(all.take(i + 1).drop_last() =~= all.take(i as int));
                assert(all.take(i + 1).last() == directives@[i as int].deep_view());
            }
            match &directives[i] {
                Directive::AliasOf { typename, alias } => {
                    aliases_insert(&mut table, alias.name.clone(), typename.clone());
                },
                _ => {},
            }
            i += 1;
        }
        proof {
            assert(all.take(i as int) =~= all);
        }
        Rewrites { table }
    }

    /// `ty` with each word that names an aliased record replaced by the
    /// alias, and one space between each two words.
    pub fn rewrite(&self, ty: &str) -> (rewritten: String)
        ensures
            rewritten@ == spec_rewrite(self@, ty@),
    {
        let v = chars_of(ty);
        let ranges = word_ranges(&v);
        let ghost list = words(v@);
        let mut rewritten = String::new();
        let mut i: usize = 0;
        proof {
            assert(substitute(self@, list.take(0)) =~= Seq::empty());
        }
        while i < ranges.len()
            invariant
                i <= ranges.len(),
                v@ == ty@,
                list == words(v@),
                cuts(v@, ranges@, list),
                rewritten@ == join(substitute(self@, list.take(i as int)), " "@),
            decreases ranges.len() - i,
        {
            let (a, b) = ranges[i];
            let word = ty.substring_char(a, b);
            if i > 0 {
                rewritten.append(" ");
            }
            match aliases_get(&self.table, word) {
                Some(alias) => {
                    rewritten.append(alias.as_str());
                },
                None => {
                    rewritten.append(word);
                },
            }
            proof {
                let done = substitute(self@, list.take(i + 1));
                assert(done.drop_last() =~= substitute(self@, list.take(i as int)));
                assert(done.last() == alias_of(self@, word@));
            }
            i += 1;
        }
        proof {
            assert(list.take(i as int) =~= list);
        }
        rewritten
    }
}

} // verus!
