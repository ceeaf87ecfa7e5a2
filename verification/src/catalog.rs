//! From a token catalog to the nodes of the graph: one node for each symbol,
//! holding the symbol's token on every chain that lists it.

use vstd::prelude::*;
use std::collections::HashMap;
use crate::index::TextMap;
use crate::types::catalog_view;
use crate::types::ChainTokens;
use crate::types::ChainTokensView;
use crate::types::Token;
use crate::types::TokenNode;
use crate::types::TokenNodeView;
use crate::types::TokenView;

verus! {

/// The symbols of `seen` followed by those of `tokens` that were not seen
/// before, each once, in the order in which they first occur.
pub open spec fn symbols_after(seen: Seq<Seq<char>>, tokens: Seq<TokenView>) -> Seq<Seq<char>>
    decreases tokens.len(),
{
    if tokens.len() == 0 {
        seen
    } else {
        let before = symbols_after(seen, tokens.drop_last());
        if before.contains(tokens.last().symbol) {
            before
        } else {
            before.push(tokens.last().symbol)
        }
    }
}

/// The symbols of a catalog, each once, in the order in which they first
/// occur.
pub open spec fn catalog_symbol_order(catalog: Seq<ChainTokensView>) -> Seq<Seq<char>>
    decreases catalog.len(),
{
    if catalog.len() == 0 {
        Seq::empty()
    } else {
        symbols_after(catalog_symbol_order(catalog.drop_last()), catalog.last().tokens)
    }
}

/// `known`, with each token of `tokens` that has the symbol `symbol` put under
/// `chain_id`; a later token replaces an earlier one.
pub open spec fn variants_after(
    known: Map<u64, TokenView>,
    chain_id: u64,
    tokens: Seq<TokenView>,
    symbol: Seq<char>,
) -> Map<u64, TokenView>
    decreases tokens.len(),
{
    if tokens.len() == 0 {
        known
    } else {
        let before = variants_after(known, chain_id, tokens.drop_last(), symbol);
        if tokens.last().symbol == symbol {
            before.insert(chain_id, tokens.last())
        } else {
            before
        }
    }
}

/// The tokens that stand for `symbol`, by chain. Where a chain lists the
/// symbol more than once, or the catalog lists a chain more than once, the
/// last token counts.
pub open spec fn catalog_variants(catalog: Seq<ChainTokensView>, symbol: Seq<char>) -> Map<
    u64,
    TokenView,
>
    decreases catalog.len(),
{
    if catalog.len() == 0 {
        Map::empty()
    } else {
        variants_after(
            catalog_variants(catalog.drop_last(), symbol),
            catalog.last().chain_id,
            catalog.last().tokens,
            symbol,
        )
    }
}

/// The nodes that a catalog gives: one for each symbol, in the order in which
/// the symbols first occur, each with the symbol's token on every chain.
pub open spec fn catalog_nodes(catalog: Seq<ChainTokensView>) -> Seq<TokenNodeView> {
    Seq::new(
        catalog_symbol_order(catalog).len(),
        |k: int|
            TokenNodeView {
                symbol: catalog_symbol_order(catalog)[k],
                tokens: catalog_variants(catalog, catalog_symbol_order(catalog)[k]),
            },
    )
}

/// The symbols that occur in a catalog.
pub open spec fn catalog_symbols(catalog: Seq<ChainTokensView>) -> Set<Seq<char>> {
    Set::new(
        |s: Seq<char>|
            exists|c: int, t: int|
                0 <= c < catalog.len() && 0 <= t < catalog[c].tokens.len()
                    && #[trigger] catalog[c].tokens[t].symbol == s,
    )
}

/// Whether one of `tokens` has the symbol `s`.
pub open spec fn lists_symbol(tokens: Seq<TokenView>, s: Seq<char>) -> bool {
    exists|t: int| 0 <= t < tokens.len() && #[trigger] tokens[t].symbol == s
}

/// `symbols_after` adds to `seen` the symbols of `tokens`, and none twice.
pub proof fn lemma_symbols_after(seen: Seq<Seq<char>>, tokens: Seq<TokenView>)
    requires
        seen.no_duplicates(),
    ensures
        symbols_after(seen, tokens).no_duplicates(),
        forall|s: Seq<char>|
            symbols_after(seen, tokens).contains(s) <==> seen.contains(s) || lists_symbol(
                tokens,
                s,
            ),
    decreases tokens.len(),
{
    if tokens.len() > 0 {
        let front = tokens.drop_last();
        let last = tokens.last();
        lemma_symbols_after(seen, front);
        let before = symbols_after(seen, front);
        let after = symbols_after(seen, tokens);
        assert forall|s: Seq<char>| after.contains(s) <==> seen.contains(s) || lists_symbol(
            tokens,
            s,
        ) by {
            if lists_symbol(front, s) {
                let t = choose|t: int| 0 <= t < front.len() && front[t].symbol == s;
                assert(tokens[t].symbol == s);
            }
            if lists_symbol(tokens, s) {
                let t = choose|t: int| 0 <= t < tokens.len() && tokens[t].symbol == s;
                if t < front.len() {
                    assert(front[t].symbol == s);
                }
            }
            if s == last.symbol {
                assert(tokens[tokens.len() - 1].symbol == s);
            }
            if !before.contains(last.symbol) {
                assert(after == before.push(last.symbol));
                assert(after[before.len() as int] == last.symbol);
                if before.contains(s) {
                    let i = choose|i: int| 0 <= i < before.len() && before[i] == s;
                    assert(after[i] == s);
                }
            }
        }
    }
}

/// The symbol order of a catalog holds each symbol of the catalog once.
pub proof fn lemma_symbol_order(catalog: Seq<ChainTokensView>)
    ensures
        catalog_symbol_order(catalog).no_duplicates(),
        catalog_symbol_order(catalog).to_set() == catalog_symbols(catalog),
    decreases catalog.len(),
{
    let order = catalog_symbol_order(catalog);
    if catalog.len() == 0 {
        assert(order.to_set() =~= catalog_symbols(catalog));
    } else {
        let front = catalog.drop_last();
        let last = catalog.last();
        lemma_symbol_order(front);
        lemma_symbols_after(catalog_symbol_order(front), last.tokens);
        assert forall|s: Seq<char>| order.to_set().contains(s) == catalog_symbols(
            catalog,
        ).contains(s) by {
            if catalog_symbols(front).contains(s) {
                let (c, t) = choose|c: int, t: int|
                    0 <= c < front.len() && 0 <= t < front[c].tokens.len()
                        && #[trigger] front[c].tokens[t].symbol == s;
                assert(catalog[c].tokens[t].symbol == s);
            }
            if lists_symbol(last.tokens, s) {
                let t = choose|t: int| 0 <= t < last.tokens.len() && last.tokens[t].symbol == s;
                assert(catalog[catalog.len() - 1].tokens[t].symbol == s);
            }
            if catalog_symbols(catalog).contains(s) {
                let (c, t) = choose|c: int, t: int|
                    0 <= c < catalog.len() && 0 <= t < catalog[c].tokens.len()
                        && #[trigger] catalog[c].tokens[t].symbol == s;
                if c < front.len() {
                    assert(front[c].tokens[t].symbol == s);
                    assert(catalog_symbols(front).contains(s));
                } else {
                    assert(last.tokens[t].symbol == s);
                }
            }
            assert(catalog_symbol_order(front).to_set().contains(s) == catalog_symbol_order(
                front,
            ).contains(s));
        }
        assert(order.to_set() =~= catalog_symbols(catalog));
    }
}

/// A catalog gives as many nodes as it has distinct symbols, and no two of
/// them share a symbol.
pub proof fn lemma_one_node_per_symbol(catalog: Seq<ChainTokensView>)
    ensures
        catalog_symbols(catalog).finite(),
        catalog_nodes(catalog).len() == catalog_symbols(catalog).len(),
        forall|i: int, j: int|
            0 <= i < j < catalog_nodes(catalog).len() ==> catalog_nodes(catalog)[i].symbol
                != catalog_nodes(catalog)[j].symbol,
{
    lemma_symbol_order(catalog);
    catalog_symbol_order(catalog).unique_seq_to_set();
    vstd::seq_lib::seq_to_set_is_finite(catalog_symbol_order(catalog));
}

/// The number of nodes that a catalog gives does not depend on the order of
/// its chain entries: two catalogs with the same entries, in whatever order,
/// give the same number of nodes, for the same symbols.
pub proof fn lemma_node_count_ignores_chain_order(
    first: Seq<ChainTokensView>,
    second: Seq<ChainTokensView>,
)
    requires
        first.to_multiset() == second.to_multiset(),
    ensures
        catalog_symbols(first) == catalog_symbols(second),
        catalog_nodes(first).len() == catalog_nodes(second).len(),
{
    first.to_multiset_ensures();
    second.to_multiset_ensures();
    assert forall|x: ChainTokensView| first.contains(x) == second.contains(x) by {
        assert(first.contains(x) == (first.to_multiset().count(x) > 0));
        assert(second.contains(x) == (second.to_multiset().count(x) > 0));
    }
    assert forall|s: Seq<char>| catalog_symbols(first).contains(s) == catalog_symbols(
        second,
    ).contains(s) by {
        if catalog_symbols(first).contains(s) {
            lemma_symbols_of_entries(first, second, s);
        }
        if catalog_symbols(second).contains(s) {
            lemma_symbols_of_entries(second, first, s);
        }
    }
    assert(catalog_symbols(first) =~= catalog_symbols(second));
    lemma_one_node_per_symbol(first);
    lemma_one_node_per_symbol(second);
}

proof fn lemma_symbols_of_entries(
    first: Seq<ChainTokensView>,
    second: Seq<ChainTokensView>,
    s: Seq<char>,
)
    requires
        forall|x: ChainTokensView| first.contains(x) ==> second.contains(x),
        catalog_symbols(first).contains(s),
    ensures
        catalog_symbols(second).contains(s),
{
    let (c, t) = choose|c: int, t: int|
        0 <= c < first.len() && 0 <= t < first[c].tokens.len()
            && #[trigger] first[c].tokens[t].symbol == s;
    assert(first.contains(first[c]));
    let d = choose|d: int| 0 <= d < second.len() && second[d] == first[c];
    assert(second[d].tokens[t].symbol == s);
}

/// The views of nodes.
pub open spec fn node_views(nodes: Seq<TokenNode>) -> Seq<TokenNodeView> {
    nodes.map_values(|n: TokenNode| n@)
}

/// What `group_by_symbol` holds of its groups when it has read the chains
/// before `chain` and, of that chain, the tokens before `token`.
spec fn grouped(
    groups: Seq<TokenNode>,
    places: Map<Seq<char>, usize>,
    catalog: Seq<ChainTokensView>,
    chain: int,
    token: int,
) -> bool {
    let done = catalog.take(chain);
    let order = symbols_after(catalog_symbol_order(done), catalog[chain].tokens.take(token));
    &&& groups.len() == order.len()
    &&& order.no_duplicates()
    &&& forall|k: int|
        0 <= k < groups.len() ==> (#[trigger] groups[k])@ == (TokenNodeView {
            symbol: order[k],
            tokens: variants_after(
                catalog_variants(done, order[k]),
                catalog[chain].chain_id,
                catalog[chain].tokens.take(token),
                order[k],
            ),
        })
    &&& forall|k: int|
        0 <= k < order.len() ==> places.contains_key(#[trigger] order[k]) && places[order[k]] == k
    &&& forall|s: Seq<char>| #[trigger] places.contains_key(s) ==> order.contains(s)
    &&& forall|s: Seq<char>|
        !order.contains(s) ==> #[trigger] variants_after(
            catalog_variants(done, s),
            catalog[chain].chain_id,
            catalog[chain].tokens.take(token),
            s,
        ) == Map::<u64, TokenView>::empty()
}

/// Groups the tokens of a catalog by symbol.
pub fn group_by_symbol(catalog: &Vec<ChainTokens>) -> (groups: Vec<TokenNode>)
    ensures
        node_views(groups@) == catalog_nodes(catalog_view(catalog@)),
{
    let ghost cat = catalog_view(catalog@);
    let mut groups: Vec<TokenNode> = Vec::new();
    let mut places: TextMap<usize> = TextMap::new();
    let mut c: usize = 0;
    proof {
        assert(cat.take(0) =~= Seq::empty());
    }
    while c < catalog.len()
        invariant
            c <= catalog.len(),
            cat == catalog_view(catalog@),
            places.wf(),
            groups@.len() == catalog_symbol_order(cat.take(c as int)).len(),
            catalog_symbol_order(cat.take(c as int)).no_duplicates(),
            forall|k: int|
                0 <= k < groups@.len() ==> (#[trigger] groups@[k])@ == (TokenNodeView {
                    symbol: catalog_symbol_order(cat.take(c as int))[k],
                    tokens: catalog_variants(
                        cat.take(c as int),
                        catalog_symbol_order(cat.take(c as int))[k],
                    ),
                }),
            forall|k: int|
                0 <= k < groups@.len() ==> places@.contains_key(
                    #[trigger] catalog_symbol_order(cat.take(c as int))[k],
                ) && places@[catalog_symbol_order(cat.take(c as int))[k]] == k,
            forall|s: Seq<char>| #[trigger]
                places@.contains_key(s) ==> catalog_symbol_order(cat.take(c as int)).contains(s),
            forall|s: Seq<char>|
                !catalog_symbol_order(cat.take(c as int)).contains(s)
                    ==> #[trigger] catalog_variants(cat.take(c as int), s) == Map::<
                    u64,
                    TokenView,
                >::empty(),
        decreases catalog.len() - c,
    {
        let chain_id: u64 = catalog[c].chain_id;
        let tokens = &catalog[c].tokens;
        let mut t: usize = 0;
        proof {
            assert(cat[c as int] == catalog@[c as int]@);
            assert(cat[c as int].tokens.take(0) =~= Seq::empty());
        }
        while t < tokens.len()
            invariant
                c < catalog.len(),
                t <= tokens.len(),
                cat == catalog_view(catalog@),
                cat[c as int] == catalog@[c as int]@,
                tokens == &catalog@[c as int].tokens,
                chain_id == catalog@[c as int].chain_id,
                places.wf(),
                grouped(groups@, places@, cat, c as int, t as int),
            decreases tokens.len() - t,
        {
            let token = tokens[t].clone();
            let ghost done = cat.take(c as int);
            let ghost read = cat[c as int].tokens.take(t as int);
            let ghost next = cat[c as int].tokens.take(t + 1);
            let ghost order = symbols_after(catalog_symbol_order(done), read);
            let ghost s = token@.symbol;
            let ghost old_groups = groups@;
            let ghost old_places = places@;
            proof {
                assert(next.drop_last() =~= read);
                assert(next.last() == token@);
            }
            match places.get(&token.symbol) {
                Some(place) => {
                    let p: usize = *place;
                    proof {
                        assert(order.contains(s));
                        let q = choose|q: int| 0 <= q < order.len() && order[q] == s;
                        assert(old_places[order[q]] == q);
                        assert(order[p as int] == s);
                    }
                    let ghost old_tokens = groups@[p as int].tokens@;
                    groups[p].tokens.insert(chain_id, token);
                    proof {
                        let now = groups@[p as int];
                        assert(now.tokens@.map_values(|x: Token| x@) =~= old_tokens.map_values(
                            |x: Token| x@,
                        ).insert(chain_id, token@));
                        assert forall|k: int| 0 <= k < groups@.len() implies (
                        #[trigger] groups@[k])@ == (TokenNodeView {
                            symbol: order[k],
                            tokens: variants_after(
                                catalog_variants(done, order[k]),
                                chain_id,
                                next,
                                order[k],
                            ),
                        }) by {
                            if k != p {
                                assert(groups@[k] == old_groups[k]);
                                assert(order[k] != s);
                            } else {
                                assert(old_groups[k]@.symbol == order[k]);
                            }
                        }
                        assert(symbols_after(catalog_symbol_order(done), next) == order);
                        assert forall|x: Seq<char>| !order.contains(x) implies #[trigger] variants_after(
                            catalog_variants(done, x),
                            cat[c as int].chain_id,
                            next,
                            x,
                        ) == Map::<u64, TokenView>::empty() by {
                            assert(x != s);
                            assert(variants_after(
                                catalog_variants(done, x),
                                cat[c as int].chain_id,
                                read,
                                x,
                            ) == Map::<u64, TokenView>::empty());
                        }
                        assert(grouped(groups@, places@, cat, c as int, t + 1));
                    }
                },
                None => {
                    proof {
                        assert(!order.contains(s));
                    }
                    let mut variants: HashMap<u64, Token> = HashMap::new();
                    let symbol = token.symbol.clone();
                    let key = token.symbol.clone();
                    variants.insert(chain_id, token);
                    let place: usize = groups.len();
                    groups.push(TokenNode { symbol, tokens: variants });
                    places.insert(key, place);
                    proof {
                        let grown = order.push(s);
                        assert(symbols_after(catalog_symbol_order(done), next) == grown);
                        assert(grown.no_duplicates());
                        let now = groups@[place as int];
                        assert(now.tokens@.map_values(|x: Token| x@) =~= Map::<
                            u64,
                            TokenView,
                        >::empty().insert(chain_id, token@));
                        assert forall|k: int| 0 <= k < groups@.len() implies (
                        #[trigger] groups@[k])@ == (TokenNodeView {
                            symbol: grown[k],
                            tokens: variants_after(
                                catalog_variants(done, grown[k]),
                                chain_id,
                                next,
                                grown[k],
                            ),
                        }) by {
                            if k < place {
                                assert(groups@[k] == old_groups[k]);
                                assert(grown[k] == order[k]);
                                assert(order[k] != s);
                            } else {
                                assert(grown[k] == s);
                                assert(variants_after(
                                    catalog_variants(done, s),
                                    cat[c as int].chain_id,
                                    read,
                                    s,
                                ) == Map::<u64, TokenView>::empty());
                            }
                        }
                        assert forall|x: Seq<char>| #[trigger]
                            places@.contains_key(x) implies grown.contains(x) by {
                            if x == s {
                                assert(grown[place as int] == s);
                            } else {
                                assert(old_places.contains_key(x));
                                let q = choose|q: int| 0 <= q < order.len() && order[q] == x;
                                assert(grown[q] == x);
                            }
                        }
                        assert forall|x: Seq<char>| !grown.contains(x) implies #[trigger] variants_after(
                            catalog_variants(done, x),
                            chain_id,
                            next,
                            x,
                        ) == Map::<u64, TokenView>::empty() by {
                            assert(grown[place as int] == s);
                            if order.contains(x) {
                                let q = choose|q: int| 0 <= q < order.len() && order[q] == x;
                                assert(grown[q] == x);
                            }
                            assert(variants_after(
                                catalog_variants(done, x),
                                cat[c as int].chain_id,
                                read,
                                x,
                            ) == Map::<u64, TokenView>::empty());
                        }
                        assert(grouped(groups@, places@, cat, c as int, t + 1));
                    }
                },
            }
            t = t + 1;
        }
        proof {
            assert(cat[c as int].tokens.take(t as int) =~= cat[c as int].tokens);
            assert(cat.take(c + 1).drop_last() =~= cat.take(c as int));
            assert(cat.take(c + 1).last() == cat[c as int]);
            let order = catalog_symbol_order(cat.take(c + 1));
            assert forall|s: Seq<char>| !order.contains(s) implies #[trigger] catalog_variants(
                cat.take(c + 1),
                s,
            ) == Map::<u64, TokenView>::empty() by {
                assert(variants_after(
                    catalog_variants(cat.take(c as int), s),
                    cat[c as int].chain_id,
                    cat[c as int].tokens.take(t as int),
                    s,
                ) == Map::<u64, TokenView>::empty());
            }
        }
        c = c + 1;
    }
    proof {
        assert(cat.take(c as int) =~= cat);
        assert(node_views(groups@) =~= catalog_nodes(cat));
    }
    groups
}

} // verus!
