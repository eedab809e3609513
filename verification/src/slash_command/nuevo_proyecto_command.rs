//! The `/nuevo_proyecto` command: creating an onboarding project.
use vstd::prelude::*;
use crate::bridge::{new_project_id, string_from_chars};
use crate::models::Projects;
use crate::text::{chars_of, joined, lemma_filter_push, lemma_joined_push, split_words, trim, trim_chars, views, words};
use crate::utils::parse_slack_id::{parse_slack_id, slack_id_text};

verus! {

/// Characters that Slack uses for bold, italics and strike-through.
pub open spec fn is_markup(c: char) -> bool {
    c == '*' || c == '_' || c == '~'
}

pub open spec fn not_markup() -> spec_fn(char) -> bool {
    |c: char| !is_markup(c)
}

/// A word that mentions a user: it starts with `<@`.
pub open spec fn is_mention(w: Seq<char>) -> bool {
    w.len() >= 2 && w[0] == '<' && w[1] == '@'
}

pub open spec fn not_mention() -> spec_fn(Seq<char>) -> bool {
    |w: Seq<char>| !is_mention(w)
}

/// The words of the command text, with markup characters removed first.
pub open spec fn command_words(text: Seq<char>) -> Seq<Seq<char>> {
    words(text.filter(not_markup()))
}

/// The id of the last mention among the words, or empty text when there is none.
pub open spec fn admin_from_words(ws: Seq<Seq<char>>) -> Seq<char>
    decreases ws.len(),
{
    if ws.len() == 0 {
        Seq::empty()
    } else if is_mention(ws.last()) {
        slack_id_text(ws.last())
    } else {
        admin_from_words(ws.drop_last())
    }
}

/// The project name: the words that are not mentions, joined by spaces.
pub open spec fn project_name_text(text: Seq<char>) -> Seq<char> {
    trim(joined(command_words(text).filter(not_mention()), seq![' ']))
}

/// A project to create: its name and the id of its administrator.
pub struct ProjectRequest {
    pub name: String,
    pub admin_id: String,
}

/// Reads a project command: words that mention a user name the administrator
/// (the last one wins), the other words make up the name.
pub fn parse_project_command(text: &str) -> (r: ProjectRequest)
    ensures
        r.name@ == project_name_text(text@),
        r.admin_id@ == admin_from_words(command_words(text@)),
{
    let chars = chars_of(text);
    let mut clean: Vec<char> = Vec::new();
    let mut i: usize = 0;
    assert(chars@.take(0) =~= Seq::<char>::empty());
    proof {
        reveal_with_fuel(Seq::filter, 1);
    }
    while i < chars.len()
        invariant
            i <= chars@.len(),
            clean@ == chars@.take(i as int).filter(not_markup()),
        decreases chars@.len() - i,
    {
        let c = chars[i];
        proof {
            lemma_filter_push(chars@.take(i as int), not_markup(), c);
            assert(chars@.take(i + 1) =~= chars@.take(i as int).push(c));
        }
        if !(c == '*' || c == '_' || c == '~') {
            clean.push(c);
        }
        i += 1;
    }
    assert(chars@.take(chars@.len() as int) =~= chars@);
    let ws = split_words(&clean);
    let ghost all = views(ws@);
    let mut names: Vec<Vec<char>> = Vec::new();
    let mut admin = String::new();
    let mut k: usize = 0;
    assert(all.take(0) =~= Seq::<Seq<char>>::empty());
    while k < ws.len()
        invariant
            k <= ws@.len(),
            all == views(ws@),
            views(names@) == all.take(k as int).filter(not_mention()),
            admin@ == admin_from_words(all.take(k as int)),
        decreases ws@.len() - k,
    {
        let w = &ws[k];
        proof {
            lemma_filter_push(all.take(k as int), not_mention(), all[k as int]);
            assert(all.take(k + 1) =~= all.take(k as int).push(all[k as int]));
            assert(all.take(k + 1).drop_last() =~= all.take(k as int));
        }
        if w.len() >= 2 && w[0] == '<' && w[1] == '@' {
            let word = string_from_chars(w);
            admin = parse_slack_id(word.as_str());
        } else {
            names.push(w.clone());
            assert(views(names@) =~= all.take(k as int).filter(not_mention()).push(all[k as int]));
        }
        k += 1;
    }
    assert(all.take(ws@.len() as int) =~= all);
    let ghost name_words = views(names@);
    let mut line: Vec<char> = Vec::new();
    let mut j: usize = 0;
    assert(name_words.take(0) =~= Seq::<Seq<char>>::empty());
    while j < names.len()
        invariant
            j <= names@.len(),
            name_words == views(names@),
            line@ == joined(name_words.take(j as int), seq![' ']),
        decreases names@.len() - j,
    {
        let ghost before = line@;
        if j > 0 {
            line.push(' ');
        }
        let mut q: usize = 0;
        let w = &names[j];
        while q < w.len()
            invariant
                q <= w@.len(),
                line@ == (if j > 0 { before + seq![' '] } else { before }) + w@.take(q as int),
            decreases w@.len() - q,
        {
            line.push(w[q]);
            q += 1;
            assert(line@ =~= (if j > 0 { before + seq![' '] } else { before }) + w@.take(q as int));
        }
        proof {
            lemma_joined_push(name_words.take(j as int), seq![' '], name_words[j as int]);
            assert(name_words.take(j + 1) =~= name_words.take(j as int).push(name_words[j as int]));
            assert(w@.take(w@.len() as int) =~= w@);
        }
        assert(line@ =~= joined(name_words.take(j + 1), seq![' ']));
        j += 1;
    }
    assert(name_words.take(names@.len() as int) =~= name_words);
    let name = trim_chars(&line);
    ProjectRequest { name: string_from_chars(&name), admin_id: admin }
}

/// What the project command does.
pub enum ProjectStep {
    /// Answer at once with this text.
    Reply(String),
    /// Create this project.
    Create(Projects),
}

/// Decides the project command: only onboarding admins may create projects;
/// the new project gets a fresh random id.
pub fn nuevo_proyecto_step(is_admin: bool, text: &str) -> (r: ProjectStep)
    ensures
        !is_admin ==> (r matches ProjectStep::Reply(m)
            && m@ == "No tenés permisos de administrador para realizar esta acción."@),
        is_admin ==> (r matches ProjectStep::Create(p) && p.name@ == project_name_text(text@)
            && p.admin_id@ == admin_from_words(command_words(text@))),
{
    if !is_admin {
        return ProjectStep::Reply("No tenés permisos de administrador para realizar esta acción.".to_string());
    }
    let request = parse_project_command(text);
    ProjectStep::Create(Projects { id: new_project_id(), name: request.name, admin_id: request.admin_id })
}

/// The reply once the project was created or refused.
pub fn nuevo_proyecto_reply(created: Result<(), String>) -> (r: String)
    ensures
        match created {
            Ok(_) => r@ == "Proyecto creado correctamente"@,
            Err(e) => r == e,
        },
{
    match created {
        Ok(_) => "Proyecto creado correctamente".to_string(),
        Err(e) => e,
    }
}

/// A text that holds none of '*', '_' and '~' keeps every character: its words
/// are read verbatim, and the project name is its words that mention no one,
/// joined by single spaces.
pub proof fn lemma_plain_words_kept(text: Seq<char>)
    requires
        forall|i: int| 0 <= i < text.len() ==> text[i] != '*' && text[i] != '_' && text[i] != '~',
    ensures
        command_words(text) == words(text),
        project_name_text(text) == trim(joined(words(text).filter(not_mention()), seq![' '])),
{
    lemma_markup_free_filter(text);
}

proof fn lemma_markup_free_filter(text: Seq<char>)
    requires
        forall|i: int| 0 <= i < text.len() ==> text[i] != '*' && text[i] != '_' && text[i] != '~',
    ensures
        text.filter(not_markup()) == text,
    decreases text.len(),
{
    if text.len() > 0 {
        let p = text.drop_last();
        assert forall|i: int| 0 <= i < p.len() implies p[i] != '*' && p[i] != '_' && p[i] != '~' by {
            assert(p[i] == text[i]);
        }
        lemma_markup_free_filter(p);
        lemma_filter_push(p, not_markup(), text.last());
        assert(p.push(text.last()) =~= text);
        assert(text.last() == text[text.len() - 1]);
    } else {
        reveal_with_fuel(Seq::filter, 1);
        assert(text.filter(not_markup()) =~= text);
    }
}

/// Exactly the characters '*', '_' and '~' are removed from the command text.
pub proof fn lemma_only_markup_removed(c: char)
    ensures
        not_markup()(c) <==> !(c == '*' || c == '_' || c == '~'),
{
}

} // verus!
