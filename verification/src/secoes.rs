//! O que as seções do relatório garantem: cada receptor, gerador e origem aparece uma vez, na ordem, com
//! os seus números, e os avisos só quando há o que avisar.

use vstd::prelude::*;
use vstd::string::*;

use crate::balanco::{lemma_razao, lemma_razao_vezes, lemma_unidade};
use crate::config::{Config, GeradorPlano};
use crate::metricas::{Agregado, Conferencia, EstatReceptor, Origem};
use crate::plano::{linha_do_item, linhas_do_plano, soma_das_taxas};
use crate::precisao::{lemma_natural_exato, perto};
use crate::reais::{inteiro, lemma_inteiro_ordenado, um, Real};
use crate::relatorio::{
    abaixo_da_taxa, aviso_de_erros, aviso_de_taxa, avisos_do_envio, avisos_dos_envios, com_milhares,
    diferenca, em_decimal, em_milhares, em_pct, envio_de, linha_do_gerador, linha_do_receptor, linha_origem,
    linhas_das_origens, linhas_dos_geradores, linhas_dos_receptores, perda_escrita, porcentagem,
    secao_avisos, secao_conferencia, secao_geradores, secao_origens, secao_receptores, secao_resumo,
    tabelas, EnvioGerador, Resumo,
};
use crate::texto::{comeca, contem};
use crate::trechos::{acaba, lemma_associa, lemma_entre, lemma_no_meio};

verus! {

// ---- Linhas ----

/// As linhas dos receptores são as de cada um, na ordem.
pub proof fn lei_linhas_dos_receptores(
    a: Seq<EstatReceptor>,
    b: Seq<EstatReceptor>,
    recebidas: u64,
    ideal: Real,
)
    ensures
        linhas_dos_receptores(a + b, recebidas, ideal) == linhas_dos_receptores(a, recebidas, ideal)
            + linhas_dos_receptores(b, recebidas, ideal),
        b.len() == 1 ==> linhas_dos_receptores(b, recebidas, ideal) == linha_do_receptor(
            b[0],
            recebidas,
            ideal,
        ),
    decreases b.len(),
{
    if b.len() == 0 {
        assert(a + b =~= a);
    } else {
        lei_linhas_dos_receptores(a, b.drop_last(), recebidas, ideal);
        assert((a + b).drop_last() =~= a + b.drop_last());
        assert((a + b).last() == b.last());
        lemma_associa(
            linhas_dos_receptores(a, recebidas, ideal),
            linhas_dos_receptores(b.drop_last(), recebidas, ideal),
            linha_do_receptor(b.last(), recebidas, ideal),
        );
    }
}

/// As linhas dos geradores são as de cada um, na ordem do plano.
pub proof fn lei_linhas_dos_geradores(
    a: Seq<GeradorPlano>,
    b: Seq<GeradorPlano>,
    es: Seq<EnvioGerador>,
    recebidas: Seq<(Seq<char>, u64)>,
)
    ensures
        linhas_dos_geradores(a + b, es, recebidas) == linhas_dos_geradores(a, es, recebidas)
            + linhas_dos_geradores(b, es, recebidas),
        b.len() == 1 ==> linhas_dos_geradores(b, es, recebidas) == linha_do_gerador(
            b[0],
            es,
            recebidas,
        ),
    decreases b.len(),
{
    if b.len() == 0 {
        assert(a + b =~= a);
    } else {
        lei_linhas_dos_geradores(a, b.drop_last(), es, recebidas);
        assert((a + b).drop_last() =~= a + b.drop_last());
        assert((a + b).last() == b.last());
        lemma_associa(
            linhas_dos_geradores(a, es, recebidas),
            linhas_dos_geradores(b.drop_last(), es, recebidas),
            linha_do_gerador(b.last(), es, recebidas),
        );
    }
}

/// As linhas das origens são as de cada uma, na ordem, com as suas mensagens e a sua fatia.
pub proof fn lei_linhas_das_origens(a: Seq<Origem>, b: Seq<Origem>, recebidas: u64)
    ensures
        linhas_das_origens(a + b, recebidas) == linhas_das_origens(a, recebidas)
            + linhas_das_origens(b, recebidas),
        b.len() == 1 ==> linhas_das_origens(b, recebidas) == linha_origem(
            b[0].origem@,
            b[0].relay@,
            com_milhares(b[0].mensagens),
            em_pct(porcentagem(b[0].mensagens as int, recebidas)),
        ),
        secao_origens(b, recebidas).len() == 0 <==> b.len() == 0,
    decreases b.len(),
{
    if b.len() == 0 {
        assert(a + b =~= a);
    } else {
        reveal_strlit("\n=== ORIGEM x RELAY (cadeia vista pelo receptor) ===\n");
        lei_linhas_das_origens(a, b.drop_last(), recebidas);
        assert((a + b).drop_last() =~= a + b.drop_last());
        assert(linhas_das_origens(a + b, recebidas) =~= linhas_das_origens(a, recebidas)
            + linhas_das_origens(b, recebidas));
        if b.len() == 1 {
            assert(linhas_das_origens(b, recebidas) =~= linha_origem(
                b[0].origem@,
                b[0].relay@,
                com_milhares(b[0].mensagens),
                em_pct(porcentagem(b[0].mensagens as int, recebidas)),
            ));
        }
    }
}

/// As linhas do plano são as de cada gerador, na ordem, e as taxas somam.
pub proof fn lei_linhas_do_plano(a: Seq<GeradorPlano>, b: Seq<GeradorPlano>)
    ensures
        linhas_do_plano(a + b) == linhas_do_plano(a) + linhas_do_plano(b),
        b.len() == 1 ==> linhas_do_plano(b) == linha_do_item(b[0]),
        soma_das_taxas(a + b) == soma_das_taxas(a) + soma_das_taxas(b),
        b.len() == 1 ==> soma_das_taxas(b) == b[0].taxa,
    decreases b.len(),
{
    if b.len() == 0 {
        assert(a + b =~= a);
    } else {
        lei_linhas_do_plano(a, b.drop_last());
        assert((a + b).drop_last() =~= a + b.drop_last());
        assert((a + b).last() == b.last());
        lemma_associa(
            linhas_do_plano(a),
            linhas_do_plano(b.drop_last()),
            linha_do_item(b.last()),
        );
        if b.len() == 1 {
            assert(soma_das_taxas(b.drop_last()) == 0);
        }
    }
}

/// O envio de um gerador é o último com o seu nome; nenhum, se nenhum o tem.
pub proof fn lei_envio_de(es: Seq<EnvioGerador>, nome: Seq<char>, k: int)
    requires
        -1 <= k < es.len(),
        forall|i: int| k < i < es.len() ==> (#[trigger] es[i]).nome@ != nome,
        k >= 0 ==> es[k].nome@ == nome,
    ensures
        k < 0 ==> envio_de(es, nome) is None,
        k >= 0 ==> envio_de(es, nome) == Some(es[k]),
    decreases es.len(),
{
    if k < es.len() - 1 {
        let ultimo = es[es.len() - 1];
        lei_envio_de(es.drop_last(), nome, k);
    }
}

// ---- Perdas ----

/// A perda escrita traz quantas mensagens faltaram e a porcentagem delas; quando chegaram mais do que
/// saíram, quantas são as duplicadas.
pub proof fn lei_perda_escrita(r: Resumo)
    requires
        r.perdidas > i64::MIN,
    ensures
        r.perdidas >= 0 ==> perda_escrita(r) == com_milhares(r.perdidas as u64) + " ("@ + em_pct(
            r.perda_pct,
        ) + ")"@,
        r.perdidas < 0 ==> perda_escrita(r) == com_milhares((-r.perdidas) as u64)
            + " duplicadas ("@ + em_pct(r.perda_pct.oposto()) + ")"@,
{
}

// ---- Avisos ----

/// Um gerador tem aviso se e somente se ficou abaixo da sua taxa ou teve erros de envio; o dos erros
/// diz quantos foram.
pub proof fn lei_avisos_do_envio(e: EnvioGerador)
    ensures
        avisos_do_envio(e).len() == 0 <==> !abaixo_da_taxa(e) && e.erros_envio == 0,
        e.erros_envio > 0 ==> contem(avisos_do_envio(e), aviso_de_erros(e)),
        abaixo_da_taxa(e) ==> contem(avisos_do_envio(e), aviso_de_taxa(e)),
        contem(aviso_de_erros(e), com_milhares(e.erros_envio)),
        contem(aviso_de_erros(e), e.nome@),
        contem(aviso_de_taxa(e), e.nome@),
{
    reveal_strlit("  ! ");
    let s = avisos_do_envio(e);
    let t = aviso_de_taxa(e);
    let d = aviso_de_erros(e);
    let marca = "  ! "@;
    let fim = "\n"@;
    if e.erros_envio > 0 {
        let antes = s.take(s.len() - (marca + d + fim).len()) + marca;
        lemma_no_meio(antes, d, fim);
        assert(s =~= antes + d + fim);
    }
    if abaixo_da_taxa(e) {
        let resto = s.skip((marca + t).len() as int);
        lemma_no_meio(marca, t, resto);
        assert(s =~= marca + t + resto);
    }
    let nome = e.nome@;
    let n = com_milhares(e.erros_envio);
    lemma_no_meio("gerador "@ + nome + " acumulou "@, n, " erros de envio"@);
    lemma_no_meio("gerador "@, nome, " acumulou "@ + n + " erros de envio"@);
    assert(d =~= "gerador "@ + nome + (" acumulou "@ + n + " erros de envio"@));
    let k = ("gerador "@ + nome).len() as int;
    lemma_no_meio("gerador "@, nome, t.skip(k));
    assert(t =~= "gerador "@ + nome + t.skip(k));
}

/// Os avisos dos geradores são os de cada um, na ordem.
pub proof fn lei_avisos_dos_envios(a: Seq<EnvioGerador>, b: Seq<EnvioGerador>)
    ensures
        avisos_dos_envios(a + b) == avisos_dos_envios(a) + avisos_dos_envios(b),
        b.len() == 1 ==> avisos_dos_envios(b) == avisos_do_envio(b[0]),
    decreases b.len(),
{
    if b.len() == 0 {
        assert(a + b =~= a);
    } else {
        lei_avisos_dos_envios(a, b.drop_last());
        assert((a + b).drop_last() =~= a + b.drop_last());
        assert((a + b).last() == b.last());
        lemma_associa(
            avisos_dos_envios(a),
            avisos_dos_envios(b.drop_last()),
            avisos_do_envio(b.last()),
        );
    }
}

/// Há uma seção de avisos se e somente se algum gerador tem aviso, algum relógio foi inconsistente ou
/// alguma linha era ilegível; e as quantidades aparecem nela.
pub proof fn lei_secao_de_avisos(es: Seq<EnvioGerador>, ag: Agregado)
    ensures
        secao_avisos(es, ag).len() == 0 <==> avisos_dos_envios(es).len() == 0
            && ag.anomalias_relogio == 0 && ag.linhas_invalidas == 0,
        ag.anomalias_relogio > 0 ==> contem(
            secao_avisos(es, ag),
            "  ! "@ + com_milhares(ag.anomalias_relogio)
                + " mensagens com latência negativa (relógio inconsistente)\n"@,
        ),
        ag.linhas_invalidas > 0 ==> contem(
            secao_avisos(es, ag),
            "  ! "@ + com_milhares(ag.linhas_invalidas)
                + " linhas ilegíveis nos logs dos receptores\n"@,
        ),
{
    reveal_strlit("  ! ");
    reveal_strlit("\n=== AVISOS ===\n");
    let t = "\n=== AVISOS ===\n"@;
    let a = avisos_dos_envios(es);
    let relogio = "  ! "@ + com_milhares(ag.anomalias_relogio)
        + " mensagens com latência negativa (relógio inconsistente)\n"@;
    let invalidas = "  ! "@ + com_milhares(ag.linhas_invalidas)
        + " linhas ilegíveis nos logs dos receptores\n"@;
    let s = secao_avisos(es, ag);
    if ag.anomalias_relogio > 0 {
        let resto = s.skip((t + a + relogio).len() as int);
        lemma_no_meio(t + a, relogio, resto);
        assert(s =~= t + a + relogio + resto);
    }
    if ag.linhas_invalidas > 0 {
        let antes = s.take(s.len() - invalidas.len());
        lemma_no_meio(antes, invalidas, Seq::empty());
        assert(s =~= antes + invalidas + Seq::empty());
    }
}

/// Entre números naturais, um gerador fica abaixo da taxa quando a real não chega a 95% da pedida, e
/// não fica quando a passa, com um centésimo de folga; sem taxa pedida nunca fica.
pub proof fn lei_abaixo_da_taxa(e: EnvioGerador, medida: nat)
    requires
        e.taxa_real == Real::do_inteiro(medida as int),
        medida < 0x100_0000_0000,
        e.taxa_alvo < 0x100_0000_0000,
    ensures
        e.taxa_alvo == 0 ==> !abaixo_da_taxa(e),
        100 * medida + 1 <= 95 * e.taxa_alvo ==> abaixo_da_taxa(e),
        e.taxa_alvo > 0 && 100 * medida >= 95 * e.taxa_alvo + 1 ==> !abaixo_da_taxa(e),
{
    let alvo = e.taxa_alvo as nat;
    let r = e.taxa_real;
    let a = Real::do_inteiro(alvo as int);
    let f = Real::do_inteiro(95).quociente(Real::do_inteiro(100));
    let x = a.produto(f);
    let u = um() as int;
    lemma_unidade();
    lemma_natural_exato(medida);
    lemma_natural_exato(alvo);
    if alvo > 0 {
        lemma_razao(95, 100);
        lemma_razao_vezes(f, 95, 100, alvo);
        assert(x == f.produto(a)) by {
            let m = inteiro(a.mag());
            let n = inteiro(f.mag());
            assert(m * n == n * m) by (nonlinear_arith);
        }
        let xi = inteiro(x.mag()) as int;
        let y = alvo * 95 * u;
        let t: int = 0x8_0000_0000_0000;
        assert(perto(xi * 100, y, t));
        let e = xi * 100 - y;
        assert(-u < e < u) by (nonlinear_arith)
            requires
                -y <= e * t <= y,
                y == alvo * 95 * u,
                0 < alvo < 0x100_0000_0000,
                t == 0x8_0000_0000_0000,
                u > 0,
        ;
        if 100 * medida + 1 <= 95 * alvo {
            assert(medida * u < xi) by (nonlinear_arith)
                requires
                    100 * medida + 1 <= 95 * alvo,
                    y == alvo * 95 * u,
                    e == xi * 100 - y,
                    -u < e,
                    u > 0,
            ;
            lemma_ordem_do_valor(r, x);
        }
        if 100 * medida >= 95 * alvo + 1 {
            assert(medida * u > xi) by (nonlinear_arith)
                requires
                    100 * medida >= 95 * alvo + 1,
                    y == alvo * 95 * u,
                    e == xi * 100 - y,
                    e < u,
                    u > 0,
            ;
            lemma_ordem_do_valor(x, r);
        }
    }
}

/// A ordem dos números não negativos é a dos seus valores.
proof fn lemma_ordem_do_valor(x: Real, y: Real)
    requires
        x.finito(),
        y.finito(),
        !x.negativo(),
        !y.negativo(),
        inteiro(x.mag()) < inteiro(y.mag()),
    ensures
        x.menor(y),
{
    if x.mag() >= y.mag() {
        lemma_inteiro_ordenado(y.mag(), x.mag());
    }
}

// ---- Conteúdo das seções ----

/// O resumo traz a duração útil, o que se enviou, o que se recebeu, a perda e a vazão.
pub proof fn lei_secao_do_resumo(r: Resumo)
    ensures
        contem(secao_resumo(r), "duração útil: "@ + em_decimal(r.janela_s, 1) + "s"@),
        contem(secao_resumo(r), "enviadas: "@ + com_milhares(r.enviadas) + " "@),
        contem(secao_resumo(r), "recebidas: "@ + com_milhares(r.recebidas) + "\n"@),
        contem(secao_resumo(r), "perda: "@ + perda_escrita(r) + " "@),
        contem(secao_resumo(r), "vazão: "@ + em_milhares(r.vazao) + " msg/s | "@),
        contem(secao_resumo(r), " msg/s | "@ + em_decimal(r.mb_s, 1) + " MB/s\n"@),
{
    let s = secao_resumo(r);
    let a = "\n=== RESUMO ===\nduração útil: "@;
    let b = "s   enviadas: "@;
    let c = "   recebidas: "@;
    let d = "\nperda: "@;
    let e = "   vazão: "@;
    let f = " msg/s | "@;
    let g = " MB/s\n"@;
    let janela = em_decimal(r.janela_s, 1);
    let enviadas = com_milhares(r.enviadas);
    let recebidas = com_milhares(r.recebidas);
    let perda = perda_escrita(r);
    let vazao = em_milhares(r.vazao);
    let mb = em_decimal(r.mb_s, 1);
    let vazio = Seq::<char>::empty();
    lemma_bordas_do_resumo();
    let p1 = a + janela + b;
    let p2 = p1 + enviadas + c;
    let p3 = p2 + recebidas + d;
    let p4 = p3 + perda + e;
    lemma_entre(vazio, a, janela, b, s.skip(p1.len() as int), "duração útil: "@, "s"@);
    assert(s =~= vazio + a + janela + b + s.skip(p1.len() as int));
    lemma_entre(a + janela, b, enviadas, c, s.skip(p2.len() as int), "enviadas: "@, " "@);
    assert(s =~= (a + janela) + b + enviadas + c + s.skip(p2.len() as int));
    lemma_entre(p1 + enviadas, c, recebidas, d, s.skip(p3.len() as int), "recebidas: "@, "\n"@);
    assert(s =~= (p1 + enviadas) + c + recebidas + d + s.skip(p3.len() as int));
    lemma_entre(p2 + recebidas, d, perda, e, s.skip(p4.len() as int), "perda: "@, " "@);
    assert(s =~= (p2 + recebidas) + d + perda + e + s.skip(p4.len() as int));
    lemma_entre(p3 + perda, e, vazao, f, mb + g, "vazão: "@, f);
    assert(s =~= (p3 + perda) + e + vazao + f + (mb + g));
    lemma_entre(p4 + vazao, f, mb, g, vazio, f, g);
    assert(s =~= (p4 + vazao) + f + mb + g + vazio);
}

proof fn lemma_bordas_do_resumo()
    ensures
        acaba("\n=== RESUMO ===\nduração útil: "@, "duração útil: "@),
        comeca("s   enviadas: "@, "s"@),
        acaba("s   enviadas: "@, "enviadas: "@),
        comeca("   recebidas: "@, " "@),
        acaba("   recebidas: "@, "recebidas: "@),
        comeca("\nperda: "@, "\n"@),
        acaba("\nperda: "@, "perda: "@),
        comeca("   vazão: "@, " "@),
        acaba("   vazão: "@, "vazão: "@),
        comeca(" msg/s | "@, " msg/s | "@),
        acaba(" msg/s | "@, " msg/s | "@),
        comeca(" MB/s\n"@, " MB/s\n"@),
{
    reveal_strlit("\n=== RESUMO ===\nduração útil: ");
    reveal_strlit("duração útil: ");
    reveal_strlit("s   enviadas: ");
    reveal_strlit("s");
    reveal_strlit("enviadas: ");
    reveal_strlit("   recebidas: ");
    reveal_strlit("recebidas: ");
    reveal_strlit(" ");
    reveal_strlit("\nperda: ");
    reveal_strlit("\n");
    reveal_strlit("perda: ");
    reveal_strlit("   vazão: ");
    reveal_strlit("vazão: ");
    assert("\n=== RESUMO ===\nduração útil: "@.skip(16) =~= "duração útil: "@);
    assert("s   enviadas: "@.take(1) =~= "s"@);
    assert("s   enviadas: "@.skip(4) =~= "enviadas: "@);
    assert("   recebidas: "@.take(1) =~= " "@);
    assert("   recebidas: "@.skip(3) =~= "recebidas: "@);
    assert("\nperda: "@.take(1) =~= "\n"@);
    assert("\nperda: "@.skip(1) =~= "perda: "@);
    assert("   vazão: "@.take(1) =~= " "@);
    assert("   vazão: "@.skip(3) =~= "vazão: "@);
    let f = " msg/s | "@;
    assert(f.take(f.len() as int) =~= f && f.skip(0) =~= f);
    let g = " MB/s\n"@;
    assert(g.take(g.len() as int) =~= g);
}

/// A conferência aparece se e somente se o relay deixou contadores, com o que ele recebeu, o que
/// encaminhou e o que ficou na fila; o descarte aparece se e somente se houve.
pub proof fn lei_secao_da_conferencia(c: Conferencia)
    ensures
        secao_conferencia(c).len() == 0 <==> !c.disponivel,
        c.disponivel ==> contem(
            secao_conferencia(c),
            "recebidas pelo relay: "@ + com_milhares(c.recebidas_relay) + "   encaminhadas: "@,
        ) && contem(
            secao_conferencia(c),
            "   encaminhadas: "@ + com_milhares(c.encaminhadas) + "   na fila ao final: "@,
        ) && contem(
            secao_conferencia(c),
            "   na fila ao final: "@ + com_milhares(c.na_fila) + "\n"@,
        ),
        c.disponivel && c.descartadas_fila > 0 ==> contem(
            secao_conferencia(c),
            "  ! o relay descartou "@ + com_milhares(c.descartadas_fila)
                + " mensagens por fila cheia\n"@,
        ),
        c.disponivel && c.descartadas_fila == 0 ==> exists|inicio: Seq<char>|
            secao_conferencia(c) == inicio + ("   na fila ao final: "@ + com_milhares(c.na_fila)
                + "\n"@),
{
    let s = secao_conferencia(c);
    let a =
        "\n=== CONFERÊNCIA (impstats do relay, inclui o aquecimento) ===\nrecebidas pelo relay: "@;
    let b = "   encaminhadas: "@;
    let d = "   na fila ao final: "@;
    let e = "\n"@;
    let x = "recebidas pelo relay: "@;
    let m = com_milhares(c.recebidas_relay);
    let n = com_milhares(c.encaminhadas);
    let o = com_milhares(c.na_fila);
    let vazio = Seq::<char>::empty();
    reveal_strlit(
        "\n=== CONFERÊNCIA (impstats do relay, inclui o aquecimento) ===\nrecebidas pelo relay: ",
    );
    reveal_strlit("recebidas pelo relay: ");
    if c.disponivel {
        assert(acaba(a, x)) by {
            assert(a.skip(a.len() - x.len()) =~= x);
        }
        assert(acaba(b, b) && comeca(b, b) && acaba(d, d) && comeca(d, d) && comeca(e, e)) by {
            assert(b.skip(0) =~= b && b.take(b.len() as int) =~= b);
            assert(d.skip(0) =~= d && d.take(d.len() as int) =~= d);
            assert(e.take(e.len() as int) =~= e);
        }
        let p1 = a + m + b;
        let p2 = p1 + n + d;
        let p3 = p2 + o + e;
        let resto = s.skip(p3.len() as int);
        lemma_entre(vazio, a, m, b, s.skip(p1.len() as int), x, b);
        assert(s =~= vazio + a + m + b + s.skip(p1.len() as int));
        lemma_entre(a + m, b, n, d, s.skip(p2.len() as int), b, d);
        assert(s =~= (a + m) + b + n + d + s.skip(p2.len() as int));
        lemma_entre(p1 + n, d, o, e, resto, d, e);
        assert(s =~= (p1 + n) + d + o + e + resto);
        if c.descartadas_fila > 0 {
            let aviso = "  ! o relay descartou "@ + com_milhares(c.descartadas_fila)
                + " mensagens por fila cheia\n"@;
            lemma_no_meio(p3, aviso, vazio);
            assert(s =~= p3 + aviso + vazio);
        } else {
            assert(s =~= (p1 + n) + (d + o + e));
        }
    }
}

/// As tabelas trazem cada seção: o resumo, os receptores, os geradores, as origens, os avisos e a
/// conferência.
pub proof fn lei_tabelas(
    cfg: Config,
    plano: Seq<GeradorPlano>,
    envios: Seq<EnvioGerador>,
    ag: Agregado,
    conf: Conferencia,
    resumo: Resumo,
)
    ensures
        ({
            let s = tabelas(cfg, plano, envios, ag, conf, resumo);
            &&& comeca(s, secao_resumo(resumo))
            &&& contem(s, secao_receptores(cfg, ag, resumo))
            &&& contem(s, secao_geradores(plano, envios, ag.recebidas_por_gerador@))
            &&& contem(s, secao_origens(ag.origens@, resumo.recebidas))
            &&& contem(s, secao_avisos(envios, ag))
            &&& contem(s, secao_conferencia(conf))
        }),
{
    lemma_sete_partes(
        secao_resumo(resumo),
        secao_receptores(cfg, ag, resumo),
        secao_geradores(plano, envios, ag.recebidas_por_gerador@),
        secao_origens(ag.origens@, resumo.recebidas),
        secao_avisos(envios, ag),
        secao_conferencia(conf),
        "\n"@,
    );
}

proof fn lemma_sete_partes(
    a: Seq<char>,
    b: Seq<char>,
    c: Seq<char>,
    d: Seq<char>,
    e: Seq<char>,
    f: Seq<char>,
    g: Seq<char>,
)
    ensures
        ({
            let s = a + b + c + d + e + f + g;
            &&& comeca(s, a)
            &&& contem(s, b)
            &&& contem(s, c)
            &&& contem(s, d)
            &&& contem(s, e)
            &&& contem(s, f)
        }),
{
    let s = a + b + c + d + e + f + g;
    assert(s.take(a.len() as int) =~= a);
    lemma_no_meio(a, b, c + d + e + f + g);
    assert(s =~= a + b + (c + d + e + f + g));
    lemma_no_meio(a + b, c, d + e + f + g);
    assert(s =~= (a + b) + c + (d + e + f + g));
    lemma_no_meio(a + b + c, d, e + f + g);
    assert(s =~= (a + b + c) + d + (e + f + g));
    lemma_no_meio(a + b + c + d, e, f + g);
    assert(s =~= (a + b + c + d) + e + (f + g));
    lemma_no_meio(a + b + c + d + e, f, g);
}

/// A seção dos geradores traz as linhas de todos.
pub proof fn lei_secao_dos_geradores(
    ps: Seq<GeradorPlano>,
    es: Seq<EnvioGerador>,
    recebidas: Seq<(Seq<char>, u64)>,
)
    ensures
        contem(secao_geradores(ps, es, recebidas), linhas_dos_geradores(ps, es, recebidas)),
        ps.len() > 0 ==> contem(secao_geradores(ps, es, recebidas), linha_do_gerador(
            ps.last(),
            es,
            recebidas,
        )),
{
    let s = secao_geradores(ps, es, recebidas);
    let linhas = linhas_dos_geradores(ps, es, recebidas);
    let antes = s.take(s.len() - linhas.len());
    lemma_no_meio(antes, linhas, Seq::empty());
    assert(s =~= antes + linhas + Seq::empty());
    if ps.len() > 0 {
        let ultima = linha_do_gerador(ps.last(), es, recebidas);
        let p = s.take(s.len() - ultima.len());
        lemma_no_meio(p, ultima, Seq::empty());
        assert(s =~= p + ultima + Seq::empty());
    }
}

/// O que se perdeu é a diferença em 64 bits com sinal: a exata, a menos de uma volta.
pub proof fn lei_diferenca_circular(a: u64, b: u64)
    ensures
        ({
            let volta: int = 0x1_0000_0000_0000_0000;
            let d = diferenca(a, b) - (a - b);
            d == 0 || d == volta || d == -volta
        }),
        a == b ==> diferenca(a, b) == 0,
        a - b == 1 ==> diferenca(a, b) == 1,
        a - b == -1 ==> diferenca(a, b) == -1,
{
}

} // verus!
