use papers::{Article, Config};

#[test]
fn config_new_keeps_its_fields() {
    let c = Config::new(
        "Politiken",
        "dk.politiken.reader",
        "SELECT title, byline, blurb, content FROM articles WHERE refid LIKE ?",
        "SELECT refid FROM articles ORDER BY article_id DESC LIMIT 1",
    );
    assert_eq!(c.name, "Politiken");
    assert_eq!(c.app_id, "dk.politiken.reader");
    assert_eq!(c.select_stmt, "SELECT title, byline, blurb, content FROM articles WHERE refid LIKE ?");
    assert_eq!(c.refid_stmt, "SELECT refid FROM articles ORDER BY article_id DESC LIMIT 1");
}

#[test]
fn article_new_keeps_its_fields() {
    let a = Article::new("t", "by", "bl", "c");
    assert_eq!(a.title, "t");
    assert_eq!(a.byline, "by");
    assert_eq!(a.blurb, "bl");
    assert_eq!(a.content, "c");
}

#[test]
fn android_sources() {
    let s = papers::sources::sources(papers::sources::Device::Android);
    assert_eq!(
        s,
        vec![
            Config::new(
                "Politiken",
                "dk.politiken.reader",
                "SELECT title, byline, blurb, content FROM articles WHERE refid LIKE ?",
                "SELECT refid FROM articles ORDER BY article_id DESC LIMIT 1",
            ),
            Config::new(
                "Information",
                "dk.information.areader",
                "SELECT title, author AS byline, blurb, content FROM articles LEFT JOIN byline ON articles.article_id == byline.article_id WHERE refid LIKE ?",
                "SELECT refid FROM articles ORDER BY article_id DESC LIMIT 1",
            ),
        ]
    );
}

#[test]
fn ipad_sources() {
    let s = papers::sources::sources(papers::sources::Device::Ipad);
    assert_eq!(
        s,
        vec![
            Config::new(
                "Politiken",
                "4C1B6602-BAFD-4582-8A9F-1B956C8C4D93",
                "SELECT ZTITLE AS title, ZBYLINE AS byline, ZBLURB AS blurb, ZCONTENT AS content FROM ZARTICLE WHERE ZREFID LIKE ? ORDER BY ZORIGINPAGE, ZREFID",
                "SELECT ZREFID AS refid FROM ZARTICLE ORDER BY Z_PK DESC LIMIT 1",
            ),
            Config::new(
                "Information",
                "9597F96C-52F4-4467-8D6F-5CC515FACE1E",
                "SELECT ZTITLE AS title, ZAUTHOR AS byline, ZBLURB AS blurb, ZCONTENT AS content FROM ZARTICLE LEFT JOIN ZBYLINE ON ZARTICLE.Z_PK == ZBYLINE.ZARTICLE WHERE ZREFID LIKE ? ORDER BY ZORIGINPAGE, ZREFID",
                "SELECT ZREFID AS refid FROM ZARTICLE ORDER BY Z_PK DESC LIMIT 1",
            ),
        ]
    );
}
