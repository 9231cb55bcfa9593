//! The session snapshot taken when an upload starts, and the names it gives
//! to the local directory and the saved files.
use vstd::prelude::*;
use crate::text::{push_char, push_zero_padded, strip_blanks, zero_padded, clean_string};
use crate::season::{season_directory, season_of};

verus! {

/// What `str::to_uppercase` gives for a text.
pub uninterp spec fn uppercase_of(s: Seq<char>) -> Seq<char>;

/// Relies on `str::to_uppercase`: the result depends on the characters
/// alone, and an empty text stays empty.
#[verifier::external_body]
fn uppercase(s: &str) -> (r: String)
    ensures
        r@ == uppercase_of(s@),
        s@.len() == 0 ==> r@.len() == 0,
{
    s.to_uppercase()
}

/// The date code `YYMMDD`: the year modulo a hundred, the month and the day,
/// each in at least two digits.
pub open spec fn date_code_of(year: nat, month: nat, day: nat) -> Seq<char> {
    zero_padded(year % 100, 2) + zero_padded(month, 2) + zero_padded(day, 2)
}

/// The name of the local working directory: `{date}_{branch}_{title}`; the
/// saved files take it as their stem too.
pub open spec fn directory_name_of(date: Seq<char>, branch: Seq<char>, title: Seq<char>) -> Seq<
    char,
> {
    date + seq!['_'] + branch + seq!['_'] + title
}

/// The path of the saved file numbered `number`:
/// `{directory}/{directory}_{number in three digits}.JPG`.
pub open spec fn image_file_of(directory: Seq<char>, number: nat) -> Seq<char> {
    directory + seq!['/'] + directory + seq!['_'] + zero_padded(number, 3) + seq![
        '.',
        'J',
        'P',
        'G',
    ]
}

/// The values entered for one upload run, fixed when the run starts.
pub struct UploadSession {
    /// The title, without blanks.
    pub title: String,
    /// The branch code, without blanks and in upper case.
    pub branch_code: String,
    pub day: u64,
    pub month: u64,
    /// The full year.
    pub year: u64,
    pub server: String,
    pub username: String,
    pub password: String,
    /// Whether images are kept at the high-definition size.
    pub high_definition: bool,
}

impl UploadSession {
    /// Whether the year leaves room for the season around it.
    pub open spec fn wf(&self) -> bool {
        1 <= self.year < u64::MAX
    }

    /// Takes a snapshot: blanks are stripped from the title and the branch,
    /// and the branch is upper-cased.
    pub fn new(
        title: &str,
        branch: &str,
        day: u64,
        month: u64,
        year: u64,
        server: &str,
        username: &str,
        password: &str,
        high_definition: bool,
    ) -> (r: UploadSession)
        requires
            1 <= year < u64::MAX,
        ensures
            r.wf(),
            r.title@ == strip_blanks(title@),
            r.branch_code@ == uppercase_of(strip_blanks(branch@)),
            r.day == day,
            r.month == month,
            r.year == year,
            r.server@ == server@,
            r.username@ == username@,
            r.password@ == password@,
            r.high_definition == high_definition,
    {
        let stripped = clean_string(branch);
        UploadSession {
            title: clean_string(title),
            branch_code: uppercase(stripped.as_str()),
            day,
            month,
            year,
            server: String::from_str(server),
            username: String::from_str(username),
            password: String::from_str(password),
            high_definition,
        }
    }

    /// The date code of the session, `YYMMDD`.
    pub open spec fn date_code_spec(&self) -> Seq<char> {
        date_code_of(self.year as nat, self.month as nat, self.day as nat)
    }

    /// The name of the local working directory.
    pub open spec fn directory_spec(&self) -> Seq<char> {
        directory_name_of(self.date_code_spec(), self.branch_code@, self.title@)
    }

    /// The date code of the session, `YYMMDD`.
    pub fn date_code(&self) -> (r: String)
        ensures
            r@ == self.date_code_spec(),
    {
        let mut r = String::new();
        push_zero_padded(&mut r, self.year % 100, 2);
        push_zero_padded(&mut r, self.month, 2);
        push_zero_padded(&mut r, self.day, 2);
        assert(r@ =~= self.date_code_spec());
        r
    }

    /// The name of the local working directory, `{date}_{branch}_{title}`.
    pub fn local_directory_name(&self) -> (r: String)
        ensures
            r@ == self.directory_spec(),
    {
        let mut r = self.date_code();
        push_char(&mut r, '_');
        r.append(self.branch_code.as_str());
        push_char(&mut r, '_');
        r.append(self.title.as_str());
        assert(r@ =~= self.directory_spec());
        r
    }

    /// The path the image at position `index` of the collection is saved to;
    /// files are numbered from one.
    pub fn image_file_path(&self, index: usize) -> (r: String)
        requires
            index < usize::MAX,
        ensures
            r@ == image_file_of(self.directory_spec(), index as nat + 1),
    {
        let dir = self.local_directory_name();
        let mut r = String::new();
        r.append(dir.as_str());
        push_char(&mut r, '/');
        r.append(dir.as_str());
        push_char(&mut r, '_');
        push_zero_padded(&mut r, index as u64 + 1, 3);
        push_char(&mut r, '.');
        push_char(&mut r, 'J');
        push_char(&mut r, 'P');
        push_char(&mut r, 'G');
        assert(r@ =~= image_file_of(self.directory_spec(), index as nat + 1));
        r
    }

    /// The remote season directory the session is uploaded under.
    pub fn season_directory(&self) -> (r: String)
        requires
            self.wf(),
        ensures
            r@ == season_of(self.month as nat, self.year as nat),
    {
        season_directory(self.month, self.year)
    }
}

} // verus!
