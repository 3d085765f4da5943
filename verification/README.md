# numera

A deterministic mathematics engine whose logic is verified with Verus.

## Layout

- `src/` — the verified library.
  - `value_core` — the digits 0–9 and their fact tables; multi-digit
    addition, subtraction, multiplication and division built from single-digit
    facts, with every step recorded. Contracts state the numeric results
    (`add_multi(a, b).result == a + b`, and so on) and the recorded steps.
  - `rule_library` — the rule library: ten domains in tier order, the
    built-in rules, lookup by id, pattern, domain and tier, and prerequisite
    chains. The library is modelled as its sequence of registrations; a lookup
    returns the most recent registration with an id.
  - `pattern_engine` — exact decimal numerals, the tokenizer, the
    recursive-descent parser and the classifier. Each is specified by a
    grammar or a classification written as spec functions.
  - `retrieval` — the retrieval engine: best rule for a pattern, retrieval
    with prerequisite resolution, chain validation, dependency graphs and
    minimum tiers.
  - `execution` — exact integer and fraction arithmetic over the value core,
    with the recorded trace of steps and rules: sums, differences, products,
    quotients, remainders, powers, factorials, greatest common divisor and least common
    multiple.
  - `library_facts` — facts about the built-in library, checked rule by rule:
    distinct ids, prerequisites registered before the rules that name them,
    hence no prerequisite cycle; every retrieved chain validates; every
    pattern that classification names is served by rules of its domain.
  - `integration` — trace records and their JSON text, rule information and
    library statistics.
- `app/` — the parts that use floating point: the expression evaluator, which
  mixes exact values with doubles, and the engine facade built on it. They
  call the verified library for parsing, classification, retrieval and every
  exact operation.
- `tests/` — tests of the library.
