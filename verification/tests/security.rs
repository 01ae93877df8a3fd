use move_clippy::context::LintContext;
use move_clippy::lint::LintSettings;
use move_clippy::rules::security::{
    ranges_fit, FreshAddressReuseLint, SuggestBalancedReceiptLint, SuggestCapabilityPatternLint,
    SuggestCountedCapabilityLint, SuggestSequencedWitnessLint, SuspiciousOverflowCheckLint,
};
use move_clippy::rules::util::is_test_only_module;
use move_clippy::syntax::{NodeData, SourceText, SyntaxTree};

fn point(src: &str, byte: usize) -> (usize, usize) {
    let before = &src[..byte];
    let row = before.matches('\n').count();
    let col = match before.rfind('\n') {
        Some(p) => byte - p - 1,
        None => byte,
    };
    (row, col)
}

fn push(src: &str, nodes: &mut Vec<NodeData>, parent: Option<usize>, kind: &str, field: Option<&str>, start: usize, end: usize) -> usize {
    let (sr, sc) = point(src, start);
    let (er, ec) = point(src, end);
    let index = nodes.len();
    nodes.push(NodeData {
        kind: kind.to_string(),
        named: true,
        field: field.map(|f| f.to_string()),
        start_byte: start,
        end_byte: end,
        start_row: sr,
        start_column: sc,
        end_row: er,
        end_column: ec,
        parent,
        children: Vec::new(),
    });
    if let Some(p) = parent {
        nodes[p].children.push(index);
    }
    index
}

/// The byte just past the brace that closes the one at `open`.
fn matching_brace(src: &str, open: usize) -> usize {
    let mut depth = 0usize;
    for (i, c) in src[open..].char_indices() {
        if c == '{' {
            depth += 1;
        } else if c == '}' {
            depth -= 1;
            if depth == 0 {
                return open + i + 1;
            }
        }
    }
    src.len()
}

/// The outline of a Move file as a syntax tree: top-level `#[...]`
/// attributes and the module, with each `fun` (its name under the field
/// `name`) and each `struct` inside it.
fn outline(src: &str) -> SyntaxTree {
    let mut nodes = Vec::new();
    let root = push(src, &mut nodes, None, "source_file", None, 0, src.len());
    let module_start = src.find("module ").unwrap();
    let mut pos = 0;
    while let Some(a) = src[pos..module_start].find("#[") {
        let start = pos + a;
        let end = start + src[start..].find(']').unwrap() + 1;
        push(src, &mut nodes, Some(root), "attribute", None, start, end);
        pos = end;
    }
    let module_end = matching_brace(src, module_start + src[module_start..].find('{').unwrap());
    let module = push(src, &mut nodes, Some(root), "module_definition", None, module_start, module_end);
    let mut pos = module_start;
    loop {
        let next_fun = src[pos..module_end].find("fun ").map(|p| (pos + p, true));
        let next_struct = src[pos..module_end].find("struct ").map(|p| (pos + p, false));
        let next = match (next_fun, next_struct) {
            (Some(f), Some(s)) => if f.0 < s.0 { f } else { s },
            (Some(f), None) => f,
            (None, Some(s)) => s,
            (None, None) => break,
        };
        let (start, is_fun) = next;
        let open = start + src[start..].find('{').unwrap();
        let end = matching_brace(src, open);
        if is_fun {
            let f = push(src, &mut nodes, Some(module), "function_definition", None, start, end);
            let name_start = start + 4;
            let name_end = name_start + src[name_start..].find(|c: char| c == '(' || c == '<').unwrap();
            push(src, &mut nodes, Some(f), "identifier", Some("name"), name_start, name_end);
        } else {
            push(src, &mut nodes, Some(module), "struct_definition", None, start, end);
        }
        pos = end;
    }
    SyntaxTree::from_nodes(nodes).expect("well-formed tree")
}

fn lint_source(source: &str) -> Vec<String> {
    let tree = outline(source);
    let mut ctx = LintContext::new(source, LintSettings::new());
    SuspiciousOverflowCheckLint.check(&tree, &SourceText::new(source), &mut ctx);
    ctx.into_diagnostics().into_iter().map(|d| d.message).collect()
}

#[test]
fn test_hot_potato_no_abilities_ok() {
    let source = r#"
            module example::flash {
                struct FlashLoanReceipt {
                    pool_id: ID,
                    amount: u64,
                }
            }
        "#;
    assert!(lint_source(source).is_empty());
}

#[test]
fn test_empty_witness_struct_not_hot_potato() {
    let source = r#"
            module example::witness {
                struct ObligationOwnership has drop {}
                struct ObligationCollaterals has drop {}
                struct ObligationDebts has drop {}
            }
        "#;
    assert!(lint_source(source).is_empty(), "Empty witness structs should not be flagged");
}

#[test]
fn test_witness_keyword_struct_not_hot_potato() {
    let source = r#"
            module example::witness {
                struct MarkerType has drop {
                    value: u64,
                }
                struct WitnessStruct has drop {
                    id: ID,
                }
            }
        "#;
    assert!(lint_source(source).is_empty(), "Witness-keyword structs should not be flagged");
}

#[test]
fn test_asset_metadata_struct_not_token() {
    let source = r#"
            module example::metadata {
                struct Asset has store, copy, drop {
                    symbol: String,
                    decimals: u8,
                }
                struct DepositedAsset has store, copy, drop {
                    name: String,
                    quantity: u64,
                }
            }
        "#;
    assert!(lint_source(source).is_empty(), "Asset metadata structs should not be flagged");
}

#[test]
fn test_event_suffix_struct_not_token() {
    let source = r#"
            module example::events {
                struct AssetSupplied has copy, drop {
                    pool_id: ID,
                    amount: u64,
                }
                struct AssetSynced has copy, drop {
                    timestamp: u64,
                }
                struct CoinDecimalsRegistered has copy, drop {
                    coin_type: String,
                }
            }
        "#;
    assert!(lint_source(source).is_empty(), "Event structs should not be flagged as tokens");
}

#[test]
fn test_transferred_cap_ok() {
    let source = r#"
            module example::admin {
                use sui::transfer;
                
                public fun init(ctx: &mut TxContext) {
                    let admin_cap = AdminCap { id: object::new(ctx) };
                    transfer::transfer(admin_cap, tx_context::sender(ctx));
                }
            }
        "#;
    assert!(lint_source(source).is_empty());
}

#[test]
fn test_shared_pool_not_cap_ok() {
    let source = r#"
            module example::dex {
                use sui::transfer;
                
                public fun create_pool(ctx: &mut TxContext) {
                    let pool = Pool { id: object::new(ctx) };
                    transfer::share_object(pool);
                }
            }
        "#;
    assert!(lint_source(source).is_empty());
}

#[test]
fn test_capacity_not_capability_ok() {
    let source = r#"
            module example::storage {
                use sui::transfer;
                
                public fun init(ctx: &mut TxContext) {
                    let capacity = Capacity { max: 1000 };
                    transfer::share_object(capacity);
                }
            }
        "#;
    assert!(lint_source(source).is_empty());
}

#[test]
fn test_suspicious_overflow_check_detected() {
    let source = r#"
            module example::math {
                public fun checked_shlw(n: u256): (u256, bool) {
                    let mask = 0xffffffffffffffff << 192;
                    if (n > mask) {
                        return (0, true)
                    };
                    (n << 64, false)
                }
            }
        "#;
    let messages = lint_source(source);
    assert_eq!(messages.len(), 1);
    assert!(messages[0].contains("checked_shlw"));
    assert!(messages[0].contains("overflow"));
}

#[test]
fn test_safe_function_with_shifts_detected() {
    let source = r#"
            module example::math {
                public fun safe_mul(a: u256, b: u256): (u256, bool) {
                    let max = 0xffffffffffffffffffffffffffffffff;
                    if (a > max / b) {
                        return (0, true)
                    };
                    (a << 1, false)
                }
            }
        "#;
    assert_eq!(lint_source(source).len(), 1);
}

#[test]
fn test_normal_arithmetic_function_ok() {
    let source = r#"
            module example::math {
                public fun add(a: u64, b: u64): u64 {
                    a + b
                }
            }
        "#;
    assert!(lint_source(source).is_empty());
}

#[test]
fn test_checked_function_without_shifts_ok() {
    let source = r#"
            module example::validate {
                public fun checked_balance(balance: u64, amount: u64): bool {
                    balance >= amount
                }
            }
        "#;
    assert!(lint_source(source).is_empty());
}

#[test]
fn test_transfer_tokens_not_admin_ok() {
    let source = r#"
            module example::token {
                public fun transfer_tokens(from: &mut Account, to: address, amount: u64) {
                    from.balance = from.balance - amount;
                }
            }
        "#;
    assert!(lint_source(source).is_empty());
}

#[test]
fn test_set_admin_fee_not_ownership_ok() {
    let source = r#"
            module example::config {
                public fun set_admin_fee(config: &mut Config, fee: u64) {
                    config.admin_fee = fee;
                }
            }
        "#;
    assert!(lint_source(source).is_empty());
}

fn withdraw_balance_messages(source: &str) -> usize {
    lint_source(source).iter().filter(|m| m.contains("withdraw") && m.contains("balance")).count()
}

#[test]
fn test_unchecked_coin_split_deprecated_no_diagnostics() {
    let source = r#"
module example::stake {
    public fun withdraw(user: &mut User, amount: u64): Coin<SUI> {
        pool::take(amount)
    }
}
        "#;
    assert_eq!(withdraw_balance_messages(source), 0);
}

#[test]
fn test_coin_split_with_balance_check_ok() {
    let source = r#"
module example::stake {
    public fun withdraw(user: &mut User, amount: u64): Coin<SUI> {
        assert!(coin::value(user.coin) >= amount, E_INSUFFICIENT);
        user.coin = coin::split(user.coin, amount);
        pool::take(amount)
    }
}
        "#;
    assert_eq!(withdraw_balance_messages(source), 0);
}

#[test]
fn test_missing_witness_drop_deprecated_no_diagnostics() {
    let source = r#"
module example::token {
    struct MY_TOKEN {}
}
        "#;
    assert!(lint_source(source).is_empty());
}

#[test]
fn test_public_random_access_deprecated_no_diagnostics() {
    let source = r#"
module example::game {
    public fun get_random_number(r: &Random) {
        random::new_generator(r).generate_u64()
    }
}
        "#;
    assert!(lint_source(source).is_empty());
}

#[test]
fn test_ignored_contains_detected() {
    let source = r#"
module example::auth {
    public fun update(authority: &UpdateAuthority, user: address) {
        vector::contains(&authority.whitelist, &user);
        do_update();
    }
}
        "#;
    let ignored = lint_source(source).iter().filter(|m| m.contains("ignores")).count();
    assert_eq!(ignored, 0, "Deprecated lint should produce no findings");
}

#[test]
fn test_shared_normal_object_ok() {
    let source = r#"
module example::pool {
    public fun new_pool(ctx: &mut TxContext) {
        let pool = Pool { id: object::new(ctx), balance: 0 };
        transfer::share_object(pool);
    }
}
        "#;
    let shared = lint_source(source).iter().filter(|m| m.contains("access-control")).count();
    assert_eq!(shared, 0);
}

#[test]
fn test_unchecked_withdraw_deprecated_no_diagnostics() {
    let source = r#"
module example::stake {
    public fun withdraw(user: &mut User, amount: u64): Coin<SUI> {
        pool::take(amount)
    }
}
        "#;
    assert_eq!(withdraw_balance_messages(source), 0);
}

#[test]
fn test_checked_withdraw_ok() {
    let source = r#"
module example::stake {
    public fun withdraw(user: &mut User, amount: u64): Coin<SUI> {
        assert!(user.balance >= amount, E_INSUFFICIENT);
        user.balance = user.balance - amount;
        pool::take(amount)
    }
}
        "#;
    assert_eq!(withdraw_balance_messages(source), 0);
}

fn capability_transfer_messages(source: &str) -> usize {
    lint_source(source).iter().filter(|m| m.contains("capability") && m.contains("transfer")).count()
}

#[test]
fn test_capability_leak_deprecated_no_diagnostics() {
    let source = r#"
module example::admin {
    public fun transfer_admin_cap(cap: AdminCap, recipient: address) {
        transfer::transfer(cap, recipient);
    }
}
        "#;
    assert_eq!(capability_transfer_messages(source), 0);
}

#[test]
fn test_authorized_cap_transfer_ok() {
    let source = r#"
module example::admin {
    public fun transfer_admin_cap(cap: AdminCap, _auth: &AdminCap, recipient: address) {
        transfer::transfer(cap, recipient);
    }
}
        "#;
    assert_eq!(capability_transfer_messages(source), 0);
}

// ---------------------------------------------------------------------------
// test-only modules
// ---------------------------------------------------------------------------

fn test_only(source: &str) -> bool {
    let tree = outline(source);
    is_test_only_module(&tree, &SourceText::new(source))
}

#[test]
fn test_is_test_only_module_with_attribute() {
    let source = r#"
            #[test_only]
            module test_pkg::my_module {
                fun helper() {}
            }
        "#;
    assert!(test_only(source));
}

#[test]
fn test_is_test_only_module_with_test_suffix() {
    let source = r#"
            module test_pkg::my_module_tests {
                fun test_something() {}
            }
        "#;
    assert!(test_only(source));

    let source2 = r#"
            module test_pkg::my_module_test {
                fun test_something() {}
            }
        "#;
    assert!(test_only(source2));
}

#[test]
fn test_is_test_only_module_regular_module() {
    let source = r#"
            module my_pkg::my_module {
                public fun do_something(): u64 { 42 }
            }
        "#;
    assert!(!test_only(source));
}

#[test]
fn test_is_test_only_module_contest_not_test() {
    let source = r#"
            module my_pkg::contest {
                public fun participate() {}
            }
        "#;
    assert!(!test_only(source));
}

// ---------------------------------------------------------------------------
// the other security lints
// ---------------------------------------------------------------------------

fn run(source: &str, lint: &dyn Fn(&SyntaxTree, &SourceText, &mut LintContext)) -> Vec<String> {
    let tree = outline(source);
    assert!(ranges_fit(&tree, source));
    let mut ctx = LintContext::new(source, LintSettings::new());
    lint(&tree, &SourceText::new(source), &mut ctx);
    ctx.into_diagnostics().into_iter().map(|d| d.message).collect()
}

#[test]
fn reused_fresh_address_is_reported_with_counts() {
    let source = "module m::a {\n    fun make(ctx: &mut TxContext) {\n        let a = tx_context::fresh_object_address(ctx);\n        let u1 = object::new_uid_from_address(a);\n        let u2 = object::new_uid_from_address(a);\n    }\n}\n";
    let ms = run(source, &|t, s, c| FreshAddressReuseLint.check(t, s, c));
    assert_eq!(
        ms,
        vec!["Function `make` has 2 `new_uid_from_address` calls but only 1 `fresh_object_address` calls. Each UID needs its own fresh address. Consider using `object::new(ctx)` which handles this internally."]
    );
}

#[test]
fn hardcoded_sender_check_suggests_capability() {
    let source = "module m::a {\n    fun admin(ctx: &TxContext) {\n        assert!(tx_context::sender(ctx) == @0x123, 1);\n    }\n}\n";
    let ms = {
        let mut nodes = Vec::new();
        let root = push(source, &mut nodes, None, "source_file", None, 0, source.len());
        let start = source.find("assert!").unwrap();
        let end = start + source[start..].find(';').unwrap();
        push(source, &mut nodes, Some(root), "macro_call_expression", None, start, end);
        let tree = SyntaxTree::from_nodes(nodes).unwrap();
        let mut ctx = LintContext::new(source, LintSettings::new());
        SuggestCapabilityPatternLint.check(&tree, &SourceText::new(source), &mut ctx);
        ctx.into_diagnostics().into_iter().map(|d| d.message).collect::<Vec<_>>()
    };
    assert_eq!(
        ms,
        vec!["Hardcoded address comparison detected - this is fragile and non-transferable. Consider using capability pattern: add a capability struct (e.g., `AdminCap`) and require `_cap: &AdminCap` parameter instead of checking sender address."]
    );
}

#[test]
fn boolean_step_flags_suggest_sequenced_witness() {
    let source = "module m::a {\n    struct State { step_1_complete: bool }\n}\n";
    let ms = run(source, &|t, s, c| SuggestSequencedWitnessLint.check(t, s, c));
    assert_eq!(ms.len(), 1);
    assert!(ms[0].starts_with("Boolean field detected for completion tracking."));
}

#[test]
fn mint_counter_suggests_counted_capability() {
    let source = "module m::a {\n    fun mint(s: &mut MintState) {\n        assert!(s.minted < s.MAX_SUPPLY, 1);\n        s.minted = s.minted + 1;\n    }\n}\n";
    let ms = run(source, &|t, s, c| SuggestCountedCapabilityLint.check(t, s, c));
    assert_eq!(ms.len(), 1);
    assert!(ms[0].starts_with("Function `mint` uses counter-based supply limiting."));
}

#[test]
fn bookend_check_suggests_balanced_receipt() {
    let source = "module m::a {\n    fun swap(p: &mut Pool) {\n        let k_before = p.x * p.y;\n        let k_after = p.x * p.y;\n        assert!(k_after >= k_before, 1);\n    }\n}\n";
    let ms = run(source, &|t, s, c| SuggestBalancedReceiptLint.check(t, s, c));
    assert_eq!(ms.len(), 1);
    assert!(ms[0].starts_with("Function `swap` uses bookend invariant checking"));
}

#[test]
fn security_suggestions_skip_test_modules() {
    let source = "#[test_only]\nmodule m::a {\n    struct State { is_done: bool }\n}\n";
    let ms = run(source, &|t, s, c| SuggestSequencedWitnessLint.check(t, s, c));
    assert!(ms.is_empty());
}

#[test]
fn node_ranges_past_the_source_do_not_fit() {
    let source = "module m::a {}";
    let mut nodes = Vec::new();
    let root = push(source, &mut nodes, None, "source_file", None, 0, source.len());
    push(source, &mut nodes, Some(root), "module_definition", None, 0, source.len());
    nodes[1].end_byte = 99;
    let tree = SyntaxTree::from_nodes(nodes).unwrap();
    assert!(!ranges_fit(&tree, source));
}
