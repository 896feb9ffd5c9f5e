//! Operations of the store that alternate between the database and decisions.

use vstd::prelude::*;

use crate::assets::{asset_id, completed, unit_within};
use crate::helix::{
    embedding_properties, new_embedding_request, owner_in, owner_request, HelixTextStore, UpsertStep,
};
use crate::json::{views, Json, Value};
use crate::parse::rfc3339_utc;
use crate::query::{input_content, request_content};
use crate::text::{blank, is_blank};

verus! {

/// The assets read so far, with the one in the next answer added.
pub open spec fn with_owner(assets: Seq<Json>, answer: Json) -> Seq<Json> {
    assets.push(owner_in(answer))
}

/// The assets read once all of these answers have come in.
pub open spec fn with_owners(assets: Seq<Json>, answers: Seq<Json>) -> Seq<Json>
    decreases answers.len(),
{
    if answers.len() == 0 {
        assets
    } else {
        with_owners(with_owner(assets, answers[0]), answers.drop_first())
    }
}

/// Fetching, one after the other, the assets to which some embeddings are tied.
pub struct AssetFetch {
    ids: Vec<i64>,
    assets: Vec<Value>,
}

impl AssetFetch {
    /// The embeddings asked about.
    pub closed spec fn ids(&self) -> Seq<i64> {
        self.ids@
    }

    /// The assets that the answers so far have given.
    pub closed spec fn assets(&self) -> Seq<Json> {
        views(self.assets@)
    }

    /// A fetch that has asked nothing yet.
    pub fn begin(ids: Vec<i64>) -> (fetch: AssetFetch)
        ensures
            fetch.wf(),
            fetch.ids() == ids@,
            fetch.assets() == Seq::<Json>::empty(),
    {
        let fetch = AssetFetch { ids, assets: Vec::new() };
        assert(fetch.assets() =~= Seq::<Json>::empty());
        fetch
    }

    /// There are no more answers than questions.
    pub open spec fn wf(&self) -> bool {
        self.assets().len() <= self.ids().len()
    }

    /// The next request to send, or `None` once every embedding has been asked about.
    pub fn next_request(&self) -> (request: Option<helix_db::DynamicQueryRequest>)
        requires
            self.wf(),
        ensures
            match request {
                Some(r) => {
                    &&& self.assets().len() < self.ids().len()
                    &&& request_content(r) == owner_request(
                        self.ids()[self.assets().len() as int],
                    )
                },
                None => self.assets().len() == self.ids().len(),
            },
    {
        if self.assets.len() < self.ids.len() {
            Some(HelixTextStore::asset_of_embedding(self.ids[self.assets.len()]))
        } else {
            None
        }
    }

    /// Takes the answer to the last request in; an error ends the fetch.
    pub fn answered(self, answer: Result<Value, String>) -> (next: Result<AssetFetch, String>)
        requires
            self.assets().len() < self.ids().len(),
        ensures
            match answer {
                Ok(v) => {
                    &&& next matches Ok(fetch)
                    &&& fetch.wf()
                    &&& fetch.ids() == self.ids()
                    &&& fetch.assets() == with_owner(self.assets(), v@)
                },
                Err(e) => next == Err::<AssetFetch, String>(e),
            },
    {
        match answer {
            Ok(v) => {
                let asset = first_owner(&v);
                let AssetFetch { ids, assets } = self;
                let mut more = assets;
                let ghost before = more@;
                more.push(asset);
                assert(views(more@) =~= views(before).push(asset@));
                Ok(AssetFetch { ids, assets: more })
            },
            Err(e) => Err(e),
        }
    }

    /// The assets, in the order of the embeddings.
    pub fn into_assets(self) -> (assets: Vec<Value>)
        ensures
            views(assets@) == self.assets(),
    {
        self.assets
    }
}

/// The asset in the answer to an owner request.
pub fn first_owner(answer: &Value) -> (asset: Value)
    ensures
        asset@ == owner_in(answer@),
{
    match answer.rows("asset") {
        Some(rows) => if rows.len() > 0 {
            rows[0].clone()
        } else {
            Value::Null
        },
        None => Value::Null,
    }
}

/// However many embeddings are asked about, each gives one asset, in the order of the questions and
/// with repetitions kept.
pub proof fn each_embedding_gives_one_asset(assets: Seq<Json>, answers: Seq<Json>)
    ensures
        with_owners(assets, answers) == assets + answers.map_values(|a: Json| owner_in(a)),
        with_owners(assets, answers).len() == assets.len() + answers.len(),
    decreases answers.len(),
{
    if answers.len() > 0 {
        each_embedding_gives_one_asset(with_owner(assets, answers[0]), answers.drop_first());
    }
    assert(with_owners(assets, answers) =~= assets + answers.map_values(|a: Json| owner_in(a)));
}

impl HelixTextStore {
    /// Begins to fetch the assets to which embeddings are tied: one asset for each id, in the same
    /// order and with repetitions kept.
    pub fn get_assets_for_embedding_ids(&self, ids: Vec<i64>) -> (fetch: AssetFetch)
        ensures
            fetch.wf(),
            fetch.ids() == ids@,
            fetch.assets() == Seq::<Json>::empty(),
    {
        AssetFetch::begin(ids)
    }

    /// What is to be done about an embedding once the lookup of its asset's embeddings has been
    /// answered: a unit that is there already is not written again.
    pub fn upsert_asset_embedding(
        &self,
        existing: Result<Value, String>,
        unit_kind: &str,
        unit_key: &str,
    ) -> (step: UpsertStep)
        ensures
            match existing {
                Ok(found) => if unit_within(found@, unit_kind@, unit_key@) {
                    step == UpsertStep::Finished(Ok(()))
                } else {
                    step is Embed
                },
                Err(e) => step == UpsertStep::Finished(Err(e)),
            },
    {
        match existing {
            Ok(found) => if Self::embedding_unit_exists(&found, unit_kind, unit_key) {
                UpsertStep::Finished(Ok(()))
            } else {
                UpsertStep::Embed
            },
            Err(e) => UpsertStep::Finished(Err(e)),
        }
    }

    /// What is to be done about an embedding once its content has been embedded, at the time that
    /// the clock shows.
    pub fn upsert_embedded(
        &self,
        vector: Result<helix_db::PropertyInput, String>,
        content_hash: &str,
        unit_kind: &str,
        unit_key: &str,
        content: &str,
        seconds: i64,
        nanoseconds: u32,
    ) -> (step: UpsertStep)
        ensures
            match vector {
                Ok(v) => match rfc3339_utc(seconds, nanoseconds) {
                    Some(created_at) => step matches UpsertStep::Write(request) && request_content(
                        request,
                    ) == new_embedding_request(
                        content_hash@,
                        embedding_properties(unit_kind@, unit_key@, content@, input_content(v)),
                        created_at,
                    ),
                    None => step is NoTime,
                },
                Err(e) => step == UpsertStep::Finished(Err(e)),
            },
    {
        match vector {
            Ok(v) => match self.create_asset_embedding(
                content_hash,
                unit_kind,
                unit_key,
                content,
                v,
                seconds,
                nanoseconds,
            ) {
                Some(request) => UpsertStep::Write(request),
                None => UpsertStep::NoTime,
            },
            Err(e) => UpsertStep::Finished(Err(e)),
        }
    }

    /// The id of the asset that a lookup by hash has found, if any.
    pub fn existing_asset(lookup: Result<Value, String>) -> (found: Result<Option<String>, String>)
        ensures
            match lookup {
                Ok(answer) => found matches Ok(id) && match id {
                    Some(s) => asset_id(answer@) == Some(s@),
                    None => asset_id(answer@) is None,
                },
                Err(e) => found == Err::<Option<String>, String>(e),
            },
    {
        match lookup {
            Ok(answer) => Ok(Self::extract_asset_id(&answer)),
            Err(e) => Err(e),
        }
    }

    /// Whether a video has been indexed to its end, by the lookup of its embeddings.
    pub fn video_asset_has_embeddings(lookup: Result<Value, String>) -> (found: Result<
        bool,
        String,
    >)
        ensures
            match lookup {
                Ok(answer) => found == Ok::<bool, String>(completed(answer@)),
                Err(e) => found == Err::<bool, String>(e),
            },
    {
        match lookup {
            Ok(answer) => Ok(Self::has_video_completion_marker(&answer)),
            Err(e) => Err(e),
        }
    }

    /// The API key to send: the configured one, unless it is blank.
    pub fn usable_api_key(configured: Option<String>) -> (key: Option<String>)
        ensures
            key == match configured {
                Some(text) => if is_blank(text@) {
                    None
                } else {
                    Some(text)
                },
                None => None,
            },
    {
        match configured {
            Some(text) => if blank(text.as_str()) {
                None
            } else {
                Some(text)
            },
            None => None,
        }
    }
}

/// A client that is made when it is first wanted, and kept from then on.
pub struct ClientSlot<C> {
    client: Option<C>,
}

impl<C> ClientSlot<C> {
    /// The client that is kept.
    pub closed spec fn kept(&self) -> Option<C> {
        self.client
    }

    /// A slot in which no client is kept yet.
    pub fn new() -> (slot: Self)
        ensures
            slot.kept() is None,
    {
        ClientSlot { client: None }
    }
}

impl<C: Clone> ClientSlot<C> {
    /// A copy of the kept client, or `None` where one has to be made.
    pub fn client(&self) -> (client: Option<C>)
        ensures
            match self.kept() {
                Some(kept) => client matches Some(c) && cloned(kept, c),
                None => client is None,
            },
    {
        match &self.client {
            Some(kept) => Some(kept.clone()),
            None => None,
        }
    }

    /// Keeps a copy of a client that has just been made, and hands the client on; a failure is
    /// handed on, and the slot stays as it was.
    pub fn install(&mut self, made: Result<C, String>) -> (client: Result<C, String>)
        ensures
            client == made,
            match made {
                Ok(c) => final(self).kept() matches Some(kept) && cloned(c, kept),
                Err(_) => final(self).kept() == old(self).kept(),
            },
    {
        match made {
            Ok(c) => {
                self.client = Some(c.clone());
                Ok(c)
            },
            Err(e) => Err(e),
        }
    }
}

} // verus!
