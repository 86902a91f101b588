//! What model identifiers and filters stand for.

use crate::download::{
    all_digits, any_filter, chosen_model, digits_value, dividing_slash, first_slash, is_digit,
    models_below, named_model, number_of, unsigned_part, wanted, wanted_among, ChoiceView, RepoView,
};
use crate::text::{contains_text, decimal};
use crate::text_laws::decimal_stands_for_number;
use vstd::prelude::*;

verus! {

/// A text has no slash.
pub open spec fn has_no_slash(s: Seq<char>) -> bool {
    forall|i: int| 0 <= i < s.len() ==> #[trigger] s[i] != '/'
}

proof fn lemma_digits(s: Seq<char>, n: int)
    requires
        0 <= n <= s.len(),
        all_digits(s),
    ensures
        digits_value(s, n) == crate::text_laws::number_of(s.take(n)),
    decreases n,
{
    if n > 0 {
        lemma_digits(s, n - 1);
        assert(s.take(n).drop_last() =~= s.take(n - 1));
        assert(s.take(n).last() == s[n - 1]);
        assert(is_digit(s[n - 1]));
    } else {
        assert(s.take(0) =~= Seq::<char>::empty());
    }
}

proof fn lemma_decimal_number(n: usize)
    ensures
        number_of(decimal(n as nat)) == Some(n),
{
    let s = decimal(n as nat);
    decimal_stands_for_number(n as nat);
    assert('0' <= s[0] <= '9');
    assert(unsigned_part(s) == s);
    assert(all_digits(s));
    lemma_digits(s, s.len() as int);
    assert(s.take(s.len() as int) =~= s);
}

/// The number of a model in the list, counted from one, stands for that model.
pub proof fn numbers_stand_for_places(models: Seq<RepoView>, n: usize)
    requires
        0 < n <= models.len(),
    ensures
        chosen_model(models, decimal(n as nat)) == ChoiceView::Listed((n - 1) as usize),
{
    lemma_decimal_number(n);
}

proof fn lemma_first_slash(s: Seq<char>, p: int, i: int)
    requires
        0 <= i <= p < s.len(),
        s[p] == '/',
        forall|k: int| i <= k < p ==> #[trigger] s[k] != '/',
    ensures
        first_slash(s, i) == Some(p),
    decreases p - i,
{
    if i < p {
        assert(s[i] != '/');
        lemma_first_slash(s, p, i + 1);
    }
}

proof fn lemma_no_slash(s: Seq<char>, i: int)
    requires
        0 <= i,
        forall|k: int| i <= k < s.len() ==> #[trigger] s[k] != '/',
    ensures
        first_slash(s, i) is None,
    decreases s.len() - i,
{
    if i < s.len() {
        assert(s[i] != '/');
        lemma_no_slash(s, i + 1);
    }
}

proof fn lemma_not_a_number(s: Seq<char>, p: int)
    requires
        0 <= p < s.len(),
        s[p] == '/',
    ensures
        number_of(s) is None,
{
    let digits = unsigned_part(s);
    if all_digits(digits) {
        let k = if s[0] == '+' {
            p - 1
        } else {
            p
        };
        assert(digits[k] == '/');
        assert(is_digit(digits[k]));
    }
}

/// An owner, a repository and a file, with slashes between them, stand for that file of
/// the owner's repository, wherever it lies in it.
pub proof fn paths_stand_for_files(
    models: Seq<RepoView>,
    owner: Seq<char>,
    repository: Seq<char>,
    file: Seq<char>,
)
    requires
        has_no_slash(owner),
        has_no_slash(repository),
    ensures
        chosen_model(models, owner + "/"@ + repository + "/"@ + file) == (ChoiceView::File {
            repo_id: owner + "/"@ + repository,
            filename: file,
        }),
{
    reveal_strlit("/");
    let id = owner + "/"@ + repository + "/"@ + file;
    let (p, q) = (owner.len() as int, (owner.len() + 1 + repository.len()) as int);
    assert(id[p] == '/');
    assert(id[q] == '/');
    assert forall|k: int| 0 <= k < p implies #[trigger] id[k] != '/' by {
        assert(id[k] == owner[k]);
    }
    assert forall|k: int| p + 1 <= k < q implies #[trigger] id[k] != '/' by {
        assert(id[k] == repository[k - p - 1]);
    }
    lemma_first_slash(id, p, 0);
    lemma_first_slash(id, q, p + 1);
    lemma_not_a_number(id, p);
    assert(id.take(q) =~= owner + "/"@ + repository);
    assert(id.skip(q + 1) =~= file);
}

/// A repository and a file with one slash between them stand for that file.
pub proof fn short_paths_stand_for_files(
    models: Seq<RepoView>,
    repository: Seq<char>,
    file: Seq<char>,
)
    requires
        has_no_slash(repository),
        has_no_slash(file),
    ensures
        chosen_model(models, repository + "/"@ + file) == (ChoiceView::File {
            repo_id: repository,
            filename: file,
        }),
{
    reveal_strlit("/");
    let id = repository + "/"@ + file;
    let p = repository.len() as int;
    assert(id[p] == '/');
    assert forall|k: int| 0 <= k < p implies #[trigger] id[k] != '/' by {
        assert(id[k] == repository[k]);
    }
    assert forall|k: int| p + 1 <= k < id.len() implies #[trigger] id[k] != '/' by {
        assert(id[k] == file[k - p - 1]);
    }
    lemma_first_slash(id, p, 0);
    lemma_no_slash(id, p + 1);
    lemma_not_a_number(id, p);
    assert(dividing_slash(id) == Some(p));
    assert(id.take(p) =~= repository);
    assert(id.skip(p + 1) =~= file);
}

proof fn lemma_named(models: Seq<RepoView>, text: Seq<char>, i: int)
    requires
        0 <= i,
    ensures
        match named_model(models, text, i) {
            Some(k) => {
                &&& i <= k < models.len()
                &&& contains_text(models[k].filename, text)
                &&& forall|j: int|
                    i <= j < k ==> !contains_text((#[trigger] models[j]).filename, text)
            },
            None => forall|j: int|
                i <= j < models.len() ==> !contains_text((#[trigger] models[j]).filename, text),
        },
    decreases models.len() - i,
{
    if i < models.len() && !contains_text(models[i].filename, text) {
        lemma_named(models, text, i + 1);
    }
}

/// Any other text without a slash stands for the first model of the list whose file name
/// has it in it, and for none where no file name does.
pub proof fn parts_of_names_stand_for_models(models: Seq<RepoView>, text: Seq<char>, c: int)
    requires
        models.len() <= usize::MAX,
        has_no_slash(text),
        0 <= c < text.len(),
        !('0' <= text[c] <= '9') && text[c] != '+',
    ensures
        match chosen_model(models, text) {
            ChoiceView::Listed(k) => {
                &&& k < models.len()
                &&& contains_text(models[k as int].filename, text)
                &&& forall|j: int|
                    0 <= j < k ==> !contains_text((#[trigger] models[j]).filename, text)
            },
            ChoiceView::NotFound => forall|j: int|
                0 <= j < models.len() ==> !contains_text((#[trigger] models[j]).filename, text),
            _ => false,
        },
{
    lemma_no_slash(text, 0);
    lemma_named(models, text, 0);
    let digits = unsigned_part(text);
    if all_digits(digits) {
        let k = if text[0] == '+' {
            c - 1
        } else {
            c
        };
        assert(digits[k] == text[c]);
        assert(is_digit(digits[k]));
    }
}

proof fn lemma_any_filter(model: RepoView, filters: Seq<Seq<char>>, i: int)
    requires
        0 <= i,
    ensures
        any_filter(model, filters, i) <==> exists|k: int|
            i <= k < filters.len() && (contains_text(model.filename, #[trigger] filters[k])
                || contains_text(model.repo_id, filters[k])),
    decreases filters.len() - i,
{
    if i < filters.len() {
        lemma_any_filter(model, filters, i + 1);
        assert(filters[i] == filters[i]);
    }
}

/// Models are asked for by a part of the name of their file or of their repository; any of
/// the filters will do, and without filters all are asked for.
pub proof fn filters_ask_for_models(model: RepoView, filters: Seq<Seq<char>>)
    ensures
        wanted(model, filters) <==> filters.len() == 0 || exists|k: int|
            0 <= k < filters.len() && (contains_text(model.filename, #[trigger] filters[k])
                || contains_text(model.repo_id, filters[k])),
{
    lemma_any_filter(model, filters, 0);
}

/// Every model that is asked for is selected, once, in the order of the list, and no other.
pub proof fn wanted_models_are_selected(models: Seq<RepoView>, filters: Seq<Seq<char>>, n: int)
    requires
        0 <= n <= models.len() <= usize::MAX,
    ensures
        forall|x: usize| #[trigger]
            wanted_among(models, filters, n).contains(x) <==> x < n && wanted(
                models[x as int],
                filters,
            ),
        forall|i: int, j: int|
            0 <= i < j < wanted_among(models, filters, n).len() ==> (#[trigger] wanted_among(
                models,
                filters,
                n,
            )[i]) < #[trigger] wanted_among(models, filters, n)[j],
    decreases n,
{
    if n > 0 {
        wanted_models_are_selected(models, filters, n - 1);
        let before = wanted_among(models, filters, n - 1);
        let all = wanted_among(models, filters, n);
        if wanted(models[n - 1], filters) {
            let last = (n - 1) as usize;
            assert(all == before.push(last));
            assert forall|x: usize| #[trigger] all.contains(x) <==> x < n && wanted(
                models[x as int],
                filters,
            ) by {
                if all.contains(x) {
                    let i = all.index_of(x);
                    if i < before.len() {
                        assert(before[i] == x);
                        assert(before.contains(x));
                    }
                }
                if x == last {
                    assert(all[before.len() as int] == x);
                } else if before.contains(x) {
                    assert(all[before.index_of(x)] == x);
                }
            }
            assert forall|i: int, j: int| 0 <= i < j < all.len() implies (#[trigger] all[i])
                < #[trigger] all[j] by {
                if j == before.len() {
                    assert(before.contains(before[i]));
                    assert(all[i] == before[i]);
                } else {
                    assert(before[i] < before[j]);
                }
            }
        }
    }
}

/// The directory of models is the one with that name below another, with one slash
/// between them.
pub proof fn models_lie_below(base: Seq<char>)
    ensures
        models_below(Seq::<char>::empty()) == "models"@,
        models_below(base + "/"@) == base + "/models"@,
        base.len() > 0 && base.last() != '/' ==> models_below(base) == base + "/models"@,
{
    reveal_strlit("/");
    reveal_strlit("models");
    reveal_strlit("/models");
    assert((base + "/"@).last() == '/');
    assert("/"@ + "models"@ =~= "/models"@);
    assert(models_below(base + "/"@) =~= base + "/models"@);
}

/// No model stands at zero or behind the last place: such a number is taken as a part of a
/// file name.
pub proof fn other_numbers_are_parts_of_names(models: Seq<RepoView>, n: usize)
    requires
        n == 0 || n > models.len(),
    ensures
        chosen_model(models, decimal(n as nat)) == match named_model(models, decimal(n as nat), 0) {
            Some(i) => ChoiceView::Listed(i as usize),
            None => ChoiceView::NotFound,
        },
{
    lemma_decimal_number(n);
    decimal_stands_for_number(n as nat);
    let s = decimal(n as nat);
    assert forall|k: int| 0 <= k < s.len() implies #[trigger] s[k] != '/' by {
        assert('0' <= s[k] <= '9');
    }
    lemma_no_slash(s, 0);
}

/// Nothing is no number, and neither is a plus sign on its own. Ahead of digits it says
/// nothing.
pub proof fn plus_signs_say_nothing(digits: Seq<char>)
    requires
        digits.len() > 0,
        all_digits(digits),
    ensures
        number_of(seq!['+'] + digits) == number_of(digits),
        number_of(seq!['+']) is None,
        number_of(seq![]) is None,
{
    assert((seq!['+'] + digits).skip(1) =~= digits);
    assert(seq!['+'].skip(1) =~= seq![]);
    assert(is_digit(digits[0]));
}

} // verus!
